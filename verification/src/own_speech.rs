//! Telling the owner's own speech apart from the speakers' echo, using a second
//! microphone stream that is never recorded.
//!
//! The ordinary stream is what gets recorded, because the owner's voice is never
//! suppressed in it. The second stream holds no trace of the far end and is read
//! only for whether the owner was talking. A microphone segment is leftover echo
//! only when the speakers really were playing under it and the second stream
//! stayed quiet throughout.
//!
//! Lengths of time are milliseconds in fixed point: [`MS`] is one of them.

use crate::mixer::{drop_oldest, newest, push_samples, take_padded};
use crate::spans::{are_long_runs, long_runs};
use std::collections::VecDeque;
use vstd::prelude::*;

verus! {

/// One millisecond.
pub const MS: u64 = 1_000_000;

/// How long the owner has to be audible inside a microphone segment for it to
/// count as theirs.
pub const OWN_SPEECH_MIN_MS: u64 = 250_000_000;

/// How long the speakers have to have been playing under a segment before it is a
/// candidate for being their echo at all.
pub const FAR_END_MIN_MS: u64 = 300_000_000;

/// How many seconds the detector may fall behind the recording before the oldest
/// samples are let go.
pub const MAX_PENDING_SECONDS: u64 = 2;

/// Whether a window counts as flagged when an unanswered one counts as
/// `unknown_counts`.
pub open spec fn counts(slot: Option<bool>, unknown_counts: bool) -> bool {
    match slot {
        Some(flag) => flag,
        None => unknown_counts,
    }
}

/// How much of window `index` lies inside the span.
pub open spec fn overlap(slot: int, index: int, from: int, to: int) -> int {
    let begins = if index * slot < from {
        from
    } else {
        index * slot
    };
    let ends = if (index + 1) * slot < to {
        (index + 1) * slot
    } else {
        to
    };
    if begins < ends {
        ends - begins
    } else {
        0
    }
}

/// How much of the span lies in flagged windows, over the first `upto` windows.
pub open spec fn flagged(
    slots: Seq<Option<bool>>,
    slot: int,
    from: int,
    to: int,
    unknown_counts: bool,
    upto: int,
) -> int
    decreases upto,
{
    if upto <= 0 {
        0
    } else {
        flagged(slots, slot, from, to, unknown_counts, upto - 1) + if counts(
            slots[upto - 1],
            unknown_counts,
        ) {
            overlap(slot, upto - 1, from, to)
        } else {
            0
        }
    }
}

/// How much of the span lies in flagged windows.
pub open spec fn active_in(
    slots: Seq<Option<bool>>,
    slot: int,
    from: int,
    to: int,
    unknown_counts: bool,
) -> int {
    if to <= from {
        0
    } else {
        flagged(slots, slot, from, to, unknown_counts, slots.len() as int)
    }
}

/// A flag per mixing window, laid out along the recording's own clock.
///
/// The slot index is the timestamp. `None` means nobody looked, and is never to be
/// read as "no".
#[derive(Debug, Clone)]
pub struct WindowTimeline {
    slot_ms: u64,
    slots: Vec<Option<bool>>,
}

/// Where a window ends stays within what was spanned: windows outside the range
/// add nothing to it.
proof fn lemma_outside_adds_nothing(
    slots: Seq<Option<bool>>,
    slot: int,
    from: int,
    to: int,
    unknown_counts: bool,
    low: int,
    high: int,
)
    requires
        0 <= low <= high,
        slot > 0,
        forall|i: int| low <= i < high ==> #[trigger] overlap(slot, i, from, to) == 0,
    ensures
        flagged(slots, slot, from, to, unknown_counts, low) == flagged(
            slots,
            slot,
            from,
            to,
            unknown_counts,
            high,
        ),
    decreases high - low,
{
    if low < high {
        lemma_outside_adds_nothing(slots, slot, from, to, unknown_counts, low, high - 1);
        assert(overlap(slot, high - 1, from, to) == 0);
    }
}

proof fn lemma_flagged_bound(
    slots: Seq<Option<bool>>,
    slot: int,
    from: int,
    to: int,
    unknown_counts: bool,
    upto: int,
)
    requires
        slot > 0,
        0 <= from < to,
        upto >= 0,
    ensures
        flagged(slots, slot, from, to, unknown_counts, upto) >= 0,
        flagged(slots, slot, from, to, unknown_counts, upto) <= to - from,
        upto * slot <= from ==> flagged(slots, slot, from, to, unknown_counts, upto) == 0,
        upto * slot > from ==> flagged(slots, slot, from, to, unknown_counts, upto) <= upto * slot
            - from,
    decreases upto,
{
    if upto > 0 {
        lemma_flagged_bound(slots, slot, from, to, unknown_counts, upto - 1);
        assert((upto - 1) * slot + slot == upto * slot) by (nonlinear_arith);
        assert(upto * slot >= 0 && (upto - 1) * slot >= 0) by (nonlinear_arith)
            requires
                upto > 0,
                slot > 0,
        ;
    }
}

/// Windows that end before the span or begin after it do not overlap it.
proof fn lemma_overlap_zero(slot: int, from: int, to: int, first: int, last: int)
    requires
        slot > 0,
        0 <= from < to,
        first == from / slot,
        last * slot >= to,
        last >= 0,
    ensures
        forall|i: int| 0 <= i < first ==> #[trigger] overlap(slot, i, from, to) == 0,
        forall|i: int| last <= i ==> #[trigger] overlap(slot, i, from, to) == 0,
{
    assert(first * slot <= from) by (nonlinear_arith)
        requires
            first == from / slot,
            slot > 0,
    ;
    assert forall|i: int| 0 <= i < first implies #[trigger] overlap(slot, i, from, to) == 0 by {
        assert((i + 1) * slot <= first * slot) by (nonlinear_arith)
            requires
                i + 1 <= first,
                slot > 0,
        ;
    }
    assert forall|i: int| last <= i implies #[trigger] overlap(slot, i, from, to) == 0 by {
        assert(i * slot >= last * slot) by (nonlinear_arith)
            requires
                i >= last,
                slot > 0,
        ;
    }
}

impl WindowTimeline {
    pub closed spec fn slot(&self) -> int {
        self.slot_ms as int
    }

    pub closed spec fn flags(&self) -> Seq<Option<bool>> {
        self.slots@
    }

    /// A window is at least a millisecond long.
    pub closed spec fn wf(&self) -> bool {
        self.slot_ms >= MS
    }

    pub proof fn lemma_slot_positive(&self)
        requires
            self.wf(),
        ensures
            self.slot() > 0,
    {
    }

    /// Milliseconds of the span that lie in flagged windows.
    pub open spec fn active(&self, from: int, to: int, unknown_counts: bool) -> int {
        active_in(self.flags(), self.slot(), from, to, unknown_counts)
    }

    /// A timeline with no window yet. A window shorter than a millisecond is taken
    /// as one millisecond.
    pub fn new(slot_ms: u64) -> (timeline: WindowTimeline)
        ensures
            timeline.wf(),
            timeline.slot() == if slot_ms < MS {
                MS
            } else {
                slot_ms
            },
            timeline.flags() == Seq::<Option<bool>>::empty(),
    {
        WindowTimeline {
            slot_ms: if slot_ms < MS {
                MS
            } else {
                slot_ms
            },
            slots: Vec::new(),
        }
    }

    /// A timeline of windows that are already known.
    pub fn from_slots(slot_ms: u64, slots: Vec<Option<bool>>) -> (timeline: WindowTimeline)
        ensures
            timeline.wf(),
            timeline.slot() == if slot_ms < MS {
                MS
            } else {
                slot_ms
            },
            timeline.flags() == slots@,
    {
        WindowTimeline {
            slot_ms: if slot_ms < MS {
                MS
            } else {
                slot_ms
            },
            slots,
        }
    }

    /// How many windows there are.
    pub fn len(&self) -> (windows: usize)
        ensures
            windows == self.flags().len(),
    {
        self.slots.len()
    }

    /// Record what the next window held.
    pub fn push(&mut self, value: Option<bool>)
        ensures
            final(self).slot() == old(self).slot(),
            final(self).flags() == old(self).flags().push(value),
            old(self).wf() ==> final(self).wf(),
    {
        self.slots.push(value);
    }

    /// Whether the moment that the timeline ends at can be said.
    pub fn end_fits(&self) -> (fits: bool)
        ensures
            fits == (self.flags().len() * self.slot() <= u64::MAX),
    {
        let count: u128 = self.slots.len() as u128;
        let length: u128 = self.slot_ms as u128;
        assert(count * length <= u64::MAX * u64::MAX) by (nonlinear_arith)
            requires
                0 <= count <= u64::MAX,
                0 <= length <= u64::MAX,
        ;
        count * length <= u64::MAX as u128
    }

    /// Whether as many windows as lie before a moment can be held.
    pub fn can_skip_to(&self, timestamp_ms: u64) -> (can: bool)
        requires
            self.wf(),
        ensures
            can == (timestamp_ms as int / self.slot() <= usize::MAX),
    {
        timestamp_ms / self.slot_ms <= usize::MAX as u64
    }

    /// Jump the clock forward over a break in the recording, leaving the skipped
    /// span unanswered rather than pretending it was silent.
    pub fn skip_to(&mut self, timestamp_ms: u64)
        requires
            old(self).wf(),
            timestamp_ms as int / old(self).slot() <= usize::MAX,
        ensures
            final(self).wf(),
            final(self).slot() == old(self).slot(),
            ({
                let wanted = timestamp_ms as int / old(self).slot();
                let had = old(self).flags();
                final(self).flags() == if had.len() < wanted {
                    had + Seq::new((wanted - had.len()) as nat, |i: int| None::<bool>)
                } else {
                    had
                }
            }),
    {
        let wanted: usize = (timestamp_ms / self.slot_ms) as usize;
        let ghost had = self.slots@;
        while self.slots.len() < wanted
            invariant
                self.wf(),
                self.slot() == old(self).slot(),
                had.len() <= self.slots@.len(),
                had.len() <= wanted ==> self.slots@.len() <= wanted,
                had.len() > wanted ==> self.slots@.len() == had.len(),
                self.slots@ =~= had + Seq::new(
                    (self.slots@.len() - had.len()) as nat,
                    |i: int| None::<bool>,
                ),
            decreases wanted - self.slots@.len(),
        {
            self.slots.push(None);
        }
        assert(had + Seq::new(0, |i: int| None::<bool>) =~= had);
    }

    /// Milliseconds inside `[from_ms, to_ms)` that were flagged. `unknown_counts`
    /// decides which way an unanswered window falls.
    pub fn active_ms_between(&self, from_ms: u64, to_ms: u64, unknown_counts: bool) -> (active: u64)
        requires
            self.wf(),
        ensures
            active == self.active(from_ms as int, to_ms as int, unknown_counts),
    {
        if to_ms <= from_ms {
            return 0;
        }
        let slot: u64 = self.slot_ms;
        let first: u64 = from_ms / slot;
        let whole: u64 = to_ms / slot;
        assert(whole < u64::MAX) by (nonlinear_arith)
            requires
                whole == to_ms as int / slot as int,
                slot >= 2,
                to_ms <= u64::MAX,
        ;
        let last: u64 = if to_ms % slot == 0 {
            whole
        } else {
            whole + 1
        };
        let len: usize = self.slots.len();
        let ghost flags = self.slots@;
        proof {
            assert(to_ms as int == slot as int * (to_ms as int / slot as int) + to_ms as int
                % slot as int) by {
                vstd::arithmetic::div_mod::lemma_fundamental_div_mod(to_ms as int, slot as int);
            }
            assert(last * slot >= to_ms) by (nonlinear_arith)
                requires
                    to_ms as int == slot as int * whole + to_ms as int % slot as int,
                    (to_ms as int % (slot as int)) < slot,
                    (last == whole && to_ms as int % slot as int == 0) || last == whole + 1,
            ;
            lemma_overlap_zero(
                slot as int,
                from_ms as int,
                to_ms as int,
                first as int,
                last as int,
            );
        }
        if first >= len as u64 {
            proof {
                lemma_outside_adds_nothing(
                    flags,
                    slot as int,
                    from_ms as int,
                    to_ms as int,
                    unknown_counts,
                    0,
                    len as int,
                );
            }
            return 0;
        }
        let end: usize = if last < len as u64 {
            last as usize
        } else {
            len
        };
        let mut index: usize = first as usize;
        let mut total: u64 = 0;
        proof {
            lemma_outside_adds_nothing(
                flags,
                slot as int,
                from_ms as int,
                to_ms as int,
                unknown_counts,
                0,
                index as int,
            );
        }
        assert(first <= last) by {
            assert(from_ms as int / slot as int <= to_ms as int / slot as int) by {
                vstd::arithmetic::div_mod::lemma_div_is_ordered(
                    from_ms as int,
                    to_ms as int,
                    slot as int,
                );
            }
        }
        while index < end
            invariant
                first <= index <= end <= len,
                len == self.slots@.len(),
                slot == self.slot_ms,
                slot > 0,
                from_ms < to_ms,
                flags == self.slots@,
                total == flagged(
                    flags,
                    slot as int,
                    from_ms as int,
                    to_ms as int,
                    unknown_counts,
                    index as int,
                ),
            decreases end - index,
        {
            let counted = match self.slots[index] {
                Some(flag) => flag,
                None => unknown_counts,
            };
            assert(0 <= index * slot && index * slot + slot == (index + 1) * slot && (index + 1)
                * slot <= 0x1_0000_0000_0000_0000 * 0xffff_ffff_ffff_ffff) by (nonlinear_arith)
                requires
                    0 <= index <= 0xffff_ffff_ffff_ffff,
                    0 < slot <= 0xffff_ffff_ffff_ffff,
            ;
            if counted {
                let slot_from: u128 = index as u128 * slot as u128;
                let slot_to: u128 = slot_from + slot as u128;
                let begins: u64 = if slot_from < from_ms as u128 {
                    from_ms
                } else if slot_from < to_ms as u128 {
                    slot_from as u64
                } else {
                    to_ms
                };
                let ends: u64 = if slot_to < to_ms as u128 {
                    slot_to as u64
                } else {
                    to_ms
                };
                proof {
                    lemma_flagged_bound(
                        flags,
                        slot as int,
                        from_ms as int,
                        to_ms as int,
                        unknown_counts,
                        index + 1,
                    );
                }
                if begins < ends {
                    total += ends - begins;
                }
            }
            index += 1;
        }
        proof {
            lemma_outside_adds_nothing(
                flags,
                slot as int,
                from_ms as int,
                to_ms as int,
                unknown_counts,
                end as int,
                len as int,
            );
        }
        total
    }
}

/// Whether a microphone segment is nothing but the speakers coming back.
pub open spec fn only_the_speakers(own_speech: int, far_end: int) -> bool {
    far_end >= FAR_END_MIN_MS && own_speech < OWN_SPEECH_MIN_MS
}

/// Both halves matter: without the first a segment recorded in a silent room could
/// be thrown away because the detector missed it, without the second every word
/// said over the other person would go with the echo.
pub fn is_only_the_speakers(own_speech_ms: u64, far_end_ms: u64) -> (echo: bool)
    ensures
        echo == only_the_speakers(own_speech_ms as int, far_end_ms as int),
{
    far_end_ms >= FAR_END_MIN_MS && own_speech_ms < OWN_SPEECH_MIN_MS
}

/// How long the owner and the speakers were heard inside a segment. Where nobody
/// looked, the owner counts as speaking and the speakers as silent: both keep the
/// segment.
pub fn measure_segment(
    own_speech: &WindowTimeline,
    far_end: &WindowTimeline,
    from_ms: u64,
    to_ms: u64,
) -> (measured: (u64, u64))
    requires
        own_speech.wf(),
        far_end.wf(),
    ensures
        measured.0 == own_speech.active(from_ms as int, to_ms as int, true),
        measured.1 == far_end.active(from_ms as int, to_ms as int, false),
{
    (
        own_speech.active_ms_between(from_ms, to_ms, true),
        far_end.active_ms_between(from_ms, to_ms, false),
    )
}

/// The windows in which the detector heard nobody while the speakers played. A
/// window that either of them did not answer is none of these.
pub open spec fn echo_marks(own: Seq<Option<bool>>, far: Seq<Option<bool>>) -> Seq<bool> {
    Seq::new(
        if own.len() < far.len() {
            own.len()
        } else {
            far.len()
        },
        |i: int| own[i] == Some(false) && far[i] == Some(true),
    )
}

/// The stretches that are nothing but the speakers: at least as long as the
/// speakers have to play for a segment to be their echo.
pub fn echo_spans(own_speech: &WindowTimeline, far_end: &WindowTimeline) -> (spans: Vec<(u64, u64)>)
    requires
        own_speech.wf(),
        far_end.wf(),
        own_speech.flags().len() * own_speech.slot() <= u64::MAX,
    ensures
        are_long_runs(
            spans@,
            echo_marks(own_speech.flags(), far_end.flags()),
            own_speech.slot(),
            FAR_END_MIN_MS as int,
        ),
{
    let own_len: usize = own_speech.slots.len();
    let far_len: usize = far_end.slots.len();
    let len: usize = if own_len < far_len {
        own_len
    } else {
        far_len
    };
    let mut marks: Vec<bool> = Vec::new();
    let ghost all = echo_marks(own_speech.flags(), far_end.flags());
    while marks.len() < len
        invariant
            marks@.len() <= len,
            len == all.len(),
            len <= own_speech.slots@.len(),
            len <= far_end.slots@.len(),
            all == echo_marks(own_speech.slots@, far_end.slots@),
            marks@ =~= all.take(marks@.len() as int),
        decreases len - marks@.len(),
    {
        let index: usize = marks.len();
        let quiet = match own_speech.slots[index] {
            Some(flag) => !flag,
            None => false,
        };
        let playing = match far_end.slots[index] {
            Some(flag) => flag,
            None => false,
        };
        marks.push(quiet && playing);
    }
    assert(marks@ =~= all);
    assert(marks@.len() * own_speech.slot_ms <= u64::MAX) by (nonlinear_arith)
        requires
            marks@.len() <= own_speech.slots@.len(),
            own_speech.slots@.len() * own_speech.slot_ms <= u64::MAX,
    ;
    long_runs(&marks, own_speech.slot_ms, FAR_END_MIN_MS)
}

/// The second microphone stream as plain data: the samples no window has claimed,
/// the rate of the stream (zero while it is closed) and how many samples were let
/// go.
pub struct GateModel<T> {
    pub pending: Seq<T>,
    pub rate: int,
    pub dropped: int,
}

impl<T> GateModel<T> {
    /// At most two seconds wait to be claimed, and none while the stream is closed.
    pub open spec fn valid(self) -> bool {
        0 <= self.rate <= u32::MAX && self.pending.len() <= self.rate * MAX_PENDING_SECONDS
    }

    /// The stream after it delivered `samples`.
    pub open spec fn with_delivered(self, samples: Seq<T>) -> GateModel<T> {
        if self.rate == 0 {
            self
        } else {
            let all = self.pending + samples;
            let cap = self.rate * MAX_PENDING_SECONDS;
            GateModel {
                pending: newest(all, cap),
                dropped: self.dropped + if all.len() > cap {
                    all.len() - cap
                } else {
                    0
                },
                ..self
            }
        }
    }

    /// How many samples make up `duration`, to the nearest one.
    pub open spec fn wanted(self, duration: int) -> int {
        (duration * self.rate + 500_000_000) / 1_000_000_000
    }

    /// What a window of `duration` claims, if the stream has delivered that much.
    pub open spec fn claimed(self, duration: int) -> Option<Seq<T>> {
        let wanted = self.wanted(duration);
        if self.rate == 0 || wanted == 0 || self.pending.len() < wanted {
            None
        } else {
            Some(self.pending.take(wanted))
        }
    }
}

/// The second microphone stream, read only for who is talking.
pub struct OwnSpeechGate<T> {
    /// Samples the detector stream has delivered and no window has claimed.
    pending: VecDeque<T>,
    /// The rate of the detector stream. Zero while it is closed.
    sample_rate: u32,
    /// Samples let go because the detector ran ahead of the recording.
    dropped: u64,
}

impl<T> View for OwnSpeechGate<T> {
    type V = GateModel<T>;

    closed spec fn view(&self) -> GateModel<T> {
        GateModel {
            pending: self.pending@,
            rate: self.sample_rate as int,
            dropped: self.dropped as int,
        }
    }
}

impl<T: Copy> OwnSpeechGate<T> {
    /// A stream that has not opened.
    pub fn new() -> (gate: OwnSpeechGate<T>)
        ensures
            gate@.valid(),
            gate@.rate == 0,
            gate@.pending.len() == 0,
            gate@.dropped == 0,
    {
        OwnSpeechGate { pending: VecDeque::new(), sample_rate: 0, dropped: 0 }
    }

    /// Say the detector stream has opened, and at what rate.
    pub fn opened(&mut self, sample_rate: u32)
        ensures
            final(self)@.valid(),
            final(self)@.rate == sample_rate,
            final(self)@.pending.len() == 0,
            final(self)@.dropped == 0,
    {
        self.pending.clear();
        self.sample_rate = sample_rate;
        self.dropped = 0;
    }

    /// Say the detector stream has stopped. Questions from here on go unanswered
    /// rather than answered from stale samples.
    pub fn closed(&mut self)
        ensures
            final(self)@.valid(),
            final(self)@.rate == 0,
            final(self)@.pending.len() == 0,
            final(self)@.dropped == old(self)@.dropped,
    {
        self.pending.clear();
        self.sample_rate = 0;
    }

    /// Whether the detector stream is running.
    pub fn is_open(&self) -> (open: bool)
        ensures
            open == (self@.rate > 0),
    {
        self.sample_rate > 0
    }

    /// Hand over what the detector stream just delivered.
    pub fn push(&mut self, samples: &Vec<T>)
        requires
            old(self)@.valid(),
            old(self)@.dropped + old(self)@.pending.len() + samples@.len() <= u64::MAX,
            old(self)@.rate * MAX_PENDING_SECONDS <= usize::MAX,
        ensures
            final(self)@.valid(),
            final(self)@ == old(self)@.with_delivered(samples@),
    {
        if self.sample_rate == 0 {
            return;
        }
        let cap: usize = (self.sample_rate as u64 * MAX_PENDING_SECONDS) as usize;
        push_samples(&mut self.pending, samples);
        let excess: usize = drop_oldest(&mut self.pending, cap);
        self.dropped += excess as u64;
    }

    /// Claim the detector's samples for the next `duration_ms` of recording.
    ///
    /// `None` when the stream is not open or has not delivered that much yet: the
    /// detector is behind, and a segment is never dropped on a window it did not
    /// see.
    pub fn take_window(&mut self, duration_ms: u64) -> (window: Option<Vec<T>>)
        requires
            old(self)@.valid(),
        ensures
            final(self)@.valid(),
            final(self)@.rate == old(self)@.rate,
            final(self)@.dropped == old(self)@.dropped,
            match window {
                Some(samples) => {
                    &&& old(self)@.claimed(duration_ms as int) == Some(samples@)
                    &&& samples@ + final(self)@.pending == old(self)@.pending
                },
                None => {
                    &&& old(self)@.claimed(duration_ms as int) is None
                    &&& final(self)@ == old(self)@
                },
            },
    {
        if self.sample_rate == 0 {
            return None;
        }
        assert(0 <= duration_ms * self.sample_rate <= u64::MAX * u32::MAX) by (nonlinear_arith)
            requires
                0 <= duration_ms <= u64::MAX,
                0 <= self.sample_rate <= u32::MAX,
        ;
        let wanted: u128 = (duration_ms as u128 * self.sample_rate as u128 + 500_000_000)
            / 1_000_000_000;
        if wanted == 0 || (self.pending.len() as u128) < wanted {
            return None;
        }
        let ghost before = self.pending@;
        let first = self.pending[0];
        let window = take_padded(&mut self.pending, wanted as usize, first);
        assert(window@ + self.pending@ =~= before);
        Some(window)
    }

    /// How many samples were let go because the detector ran ahead.
    pub fn dropped_samples(&self) -> (samples: u64)
        ensures
            samples == self@.dropped,
    {
        self.dropped
    }
}

/// A segment that the detector never saw is kept, whatever the speakers did: with
/// every window of the segment unanswered, the owner counts as speaking throughout.
pub proof fn unseen_segment_is_kept(
    own: &WindowTimeline,
    far_ms: int,
    from: int,
    to: int,
)
    requires
        own.wf(),
        0 <= from,
        from + OWN_SPEECH_MIN_MS <= to,
        to <= own.flags().len() * own.slot(),
        forall|i: int| 0 <= i < own.flags().len() ==> (#[trigger] own.flags()[i]) is None,
    ensures
        own.active(from, to, true) == to - from,
        !only_the_speakers(own.active(from, to, true), far_ms),
{
    lemma_all_counted(own.flags(), own.slot(), from, to, own.flags().len() as int);
}

/// Where every window counts, the windows before `upto` cover the span up to their
/// end.
proof fn lemma_all_counted(slots: Seq<Option<bool>>, slot: int, from: int, to: int, upto: int)
    requires
        slot > 0,
        0 <= from < to,
        0 <= upto <= slots.len(),
        forall|i: int| 0 <= i < slots.len() ==> counts(#[trigger] slots[i], true),
    ensures
        flagged(slots, slot, from, to, true, upto) == if upto * slot <= from {
            0
        } else if upto * slot < to {
            upto * slot - from
        } else {
            to - from
        },
    decreases upto,
{
    if upto > 0 {
        lemma_all_counted(slots, slot, from, to, upto - 1);
        assert((upto - 1) * slot + slot == upto * slot) by (nonlinear_arith);
        assert(counts(slots[upto - 1], true));
    } else {
        assert(upto * slot == 0) by (nonlinear_arith)
            requires
                upto == 0,
        ;
    }
}

/// In a silent room nothing is dropped, however quiet the detector was: windows in
/// which the speakers were silent or nobody looked never make a segment echo.
pub proof fn silent_room_is_kept(far: &WindowTimeline, own_ms: int, from: int, to: int)
    requires
        far.wf(),
        forall|i: int| 0 <= i < far.flags().len() ==> #[trigger] far.flags()[i] != Some(true),
    ensures
        far.active(from, to, false) == 0,
        !only_the_speakers(own_ms, far.active(from, to, false)),
{
    if from < to {
        lemma_none_counted(far.flags(), far.slot(), from, to, far.flags().len() as int);
    }
}

proof fn lemma_none_counted(slots: Seq<Option<bool>>, slot: int, from: int, to: int, upto: int)
    requires
        0 <= upto <= slots.len(),
        forall|i: int| 0 <= i < slots.len() ==> #[trigger] slots[i] != Some(true),
    ensures
        flagged(slots, slot, from, to, false, upto) == 0,
    decreases upto,
{
    if upto > 0 {
        lemma_none_counted(slots, slot, from, to, upto - 1);
        assert(slots[upto - 1] != Some(true));
    }
}

/// A span and what follows it are heard as one: however a span is cut in two, what counts in
/// both parts together is what counts in the whole.
pub proof fn heard_time_adds_up(
    slots: Seq<Option<bool>>,
    slot: int,
    from: int,
    middle: int,
    to: int,
    unknown_counts: bool,
)
    requires
        slot > 0,
        from <= middle <= to,
    ensures
        active_in(slots, slot, from, middle, unknown_counts) + active_in(
            slots,
            slot,
            middle,
            to,
            unknown_counts,
        ) == active_in(slots, slot, from, to, unknown_counts),
{
    if from < middle && middle < to {
        lemma_flagged_adds_up(slots, slot, from, middle, to, unknown_counts, slots.len() as int);
    }
}

proof fn lemma_flagged_adds_up(
    slots: Seq<Option<bool>>,
    slot: int,
    from: int,
    middle: int,
    to: int,
    unknown_counts: bool,
    upto: int,
)
    requires
        slot > 0,
        from <= middle <= to,
    ensures
        flagged(slots, slot, from, middle, unknown_counts, upto) + flagged(
            slots,
            slot,
            middle,
            to,
            unknown_counts,
            upto,
        ) == flagged(slots, slot, from, to, unknown_counts, upto),
    decreases upto,
{
    if upto > 0 {
        lemma_flagged_adds_up(slots, slot, from, middle, to, unknown_counts, upto - 1);
        assert((upto - 1) * slot + slot == upto * slot) by (nonlinear_arith);
    }
}

/// Inside one window, all of a span counts or none of it: all where the window was answered
/// with yes, or where nobody looked and that counts; none where it was answered with no.
/// Behind the last window nothing counts.
pub proof fn window_counts_as_it_was_answered(
    slots: Seq<Option<bool>>,
    slot: int,
    index: int,
    from: int,
    to: int,
    unknown_counts: bool,
)
    requires
        slot > 0,
        index >= 0,
        index * slot <= from <= to,
        index < slots.len() ==> to <= (index + 1) * slot,
    ensures
        index >= slots.len() ==> active_in(slots, slot, from, to, unknown_counts) == 0,
        index < slots.len() && slots[index] == Some(true) ==> active_in(
            slots,
            slot,
            from,
            to,
            unknown_counts,
        ) == to - from,
        index < slots.len() && slots[index] == Some(false) ==> active_in(
            slots,
            slot,
            from,
            to,
            unknown_counts,
        ) == 0,
        index < slots.len() && slots[index] is None ==> active_in(
            slots,
            slot,
            from,
            to,
            unknown_counts,
        ) == if unknown_counts {
            to - from
        } else {
            0
        },
{
    if from < to {
        let all = slots.len() as int;
        assert forall|i: int| 0 <= i < index implies #[trigger] overlap(slot, i, from, to) == 0 by {
            assert((i + 1) * slot <= index * slot) by (nonlinear_arith)
                requires
                    i + 1 <= index,
                    slot > 0,
            ;
        }
        if index >= all {
            lemma_outside_adds_nothing(slots, slot, from, to, unknown_counts, 0, all);
        } else {
            lemma_outside_adds_nothing(slots, slot, from, to, unknown_counts, 0, index);
            assert forall|i: int| index + 1 <= i < all implies #[trigger] overlap(
                slot,
                i,
                from,
                to,
            ) == 0 by {
                assert(i * slot >= (index + 1) * slot) by (nonlinear_arith)
                    requires
                        i >= index + 1,
                        slot > 0,
                ;
            }
            lemma_outside_adds_nothing(slots, slot, from, to, unknown_counts, index + 1, all);
        }
    }
}

/// What counts as echo, in numbers: the speakers were heard for at least three tenths of a
/// second and the owner for less than a quarter. More of the owner never makes it echo, and
/// less of the speakers neither.
pub proof fn echo_takes_the_speakers_and_not_the_owner(own: int, far: int, more: int, less: int)
    requires
        own <= more,
        less <= far,
    ensures
        only_the_speakers(own, far) <==> far >= 300_000_000 && own < 250_000_000,
        !only_the_speakers(own, far) ==> !only_the_speakers(more, less),
{
}

/// A window is silenced afterwards only where the detector looked and heard nobody while the
/// speakers were heard to play: an unanswered window never is.
pub proof fn only_answered_windows_are_silenced(
    own: Seq<Option<bool>>,
    far: Seq<Option<bool>>,
    index: int,
)
    requires
        0 <= index,
    ensures
        index < echo_marks(own, far).len() <==> index < own.len() && index < far.len(),
        index < echo_marks(own, far).len() ==> (echo_marks(own, far)[index] <==> own[index] == Some(
            false,
        ) && far[index] == Some(true)),
{
}

/// Every stretch that is silenced afterwards is at least three tenths of a second long, and
/// every window in it was answered: nobody spoke, and the speakers played.
pub proof fn silenced_stretches_were_the_speakers(
    spans: Seq<(u64, u64)>,
    own: Seq<Option<bool>>,
    far: Seq<Option<bool>>,
    slot: int,
    index: int,
)
    requires
        slot > 0,
        are_long_runs(spans, echo_marks(own, far), slot, FAR_END_MIN_MS as int),
        0 <= index < own.len(),
        index < far.len(),
        own.len() * slot <= u64::MAX,
    ensures
        forall|k: int|
            0 <= k < spans.len() && (#[trigger] spans[k]).0 <= index * slot < spans[k].1
                ==> own[index] == Some(false) && far[index] == Some(true),
        forall|k: int|
            0 <= k < spans.len() ==> (#[trigger] spans[k]).1 - spans[k].0 >= 300_000_000,
{
    let marks = echo_marks(own, far);
    assert(marks.len() * slot <= own.len() * slot) by (nonlinear_arith)
        requires
            marks.len() <= own.len(),
            slot > 0,
    ;
    assert forall|k: int| 0 <= k < spans.len() implies (#[trigger] spans[k]).1 - spans[k].0
        >= 300_000_000 && (spans[k].0 <= index * slot < spans[k].1 ==> own[index] == Some(false)
        && far[index] == Some(true)) by {
        crate::spans::stretch_is_made_of_marks(spans, marks, slot, FAR_END_MIN_MS as int, k, index);
    }
}

/// Where the speakers played alone for three tenths of a second or more, all of it is
/// silenced: from window to window the detector looked and heard nobody.
pub proof fn speakers_alone_are_silenced(
    spans: Seq<(u64, u64)>,
    own: Seq<Option<bool>>,
    far: Seq<Option<bool>>,
    slot: int,
    from: int,
    to: int,
    index: int,
)
    requires
        slot > 0,
        are_long_runs(spans, echo_marks(own, far), slot, FAR_END_MIN_MS as int),
        0 <= from <= index < to <= own.len(),
        to <= far.len(),
        forall|i: int| from <= i < to ==> #[trigger] own[i] == Some(false),
        forall|i: int| from <= i < to ==> #[trigger] far[i] == Some(true),
        (to - from) * slot >= 300_000_000,
        own.len() * slot <= u64::MAX,
    ensures
        exists|k: int|
            0 <= k < spans.len() && (#[trigger] spans[k]).0 <= index * slot && (index + 1) * slot
                <= spans[k].1,
{
    let marks = echo_marks(own, far);
    assert(marks.len() * slot <= own.len() * slot) by (nonlinear_arith)
        requires
            marks.len() <= own.len(),
            slot > 0,
    ;
    assert forall|i: int| from <= i < to implies #[trigger] marks[i] by {
        assert(own[i] == Some(false) && far[i] == Some(true));
    }
    crate::spans::long_marks_are_in_a_stretch(
        spans,
        marks,
        slot,
        FAR_END_MIN_MS as int,
        from,
        to,
        index,
    );
}

/// What the second microphone delivered is claimed in order and whole: a window gets the
/// oldest samples, as many as its length holds to the nearest one, and none where there are
/// not that many.
pub proof fn window_claims_the_oldest_samples<T>(gate: GateModel<T>, duration: int)
    requires
        gate.valid(),
        duration >= 0,
    ensures
        gate.rate == 0 ==> gate.claimed(duration) is None,
        match gate.claimed(duration) {
            Some(samples) => {
                &&& samples.len() > 0
                &&& samples.len() <= gate.pending.len()
                &&& -500_000_000 < samples.len() * 1_000_000_000 - duration * gate.rate
                    <= 500_000_000
                &&& forall|i: int|
                    0 <= i < samples.len() ==> #[trigger] samples[i] == gate.pending[i]
            },
            None => gate.rate == 0 || duration * gate.rate < 500_000_000 || duration * gate.rate
                >= gate.pending.len() * 1_000_000_000 + 500_000_000,
        },
{
    let wanted = gate.wanted(duration);
    assert(duration * gate.rate >= 0) by (nonlinear_arith)
        requires
            duration >= 0,
            gate.rate >= 0,
    ;
}

/// What is delivered waits behind what came before; only what is older than two seconds goes,
/// and it is counted. A closed stream takes nothing.
pub proof fn delivered_samples_wait_in_order<T>(gate: GateModel<T>, samples: Seq<T>)
    requires
        gate.valid(),
    ensures
        ({
            let after = gate.with_delivered(samples);
            let all = gate.pending + samples;
            &&& gate.rate == 0 ==> after == gate
            &&& gate.rate > 0 && all.len() <= 2 * gate.rate ==> after.pending == all
                && after.dropped == gate.dropped
            &&& gate.rate > 0 && all.len() > 2 * gate.rate ==> after.pending == all.skip(
                all.len() - 2 * gate.rate,
            ) && after.dropped == gate.dropped + all.len() - 2 * gate.rate
            &&& after.rate == gate.rate
        }),
{
}

} // verus!
