//! Finding the speakers' echo in a recording that nobody judged while it ran.
//!
//! The owner's own voice arrives at the microphone at the level it is spoken at; the other
//! person arrives there well below that. So the owner's level is measured from the
//! stretches where they talk alone, and while the other person is playing, a microphone
//! well below that level is echo.
//!
//! Levels are billionths of full scale. Lengths of time are milliseconds in fixed point,
//! counted as in [`crate::own_speech`].

use crate::spans::{are_long_runs, in_long_run, long_run, long_runs, marked_run};
use vstd::prelude::*;

verus! {

/// How much of the recording one measurement covers.
pub const WINDOW_MS: u64 = 25_000_000;

/// How long after the speakers played the microphone may still be hearing them.
pub const ECHO_REACH_MS: u64 = 500_000_000;

/// Below this a window carries nothing, on either track.
pub const SILENCE_LEVEL: u64 = 2_000_000;

/// Below this the microphone is not the owner speaking, for learning how loud they speak.
pub const VOICE_FLOOR_LEVEL: u64 = 10_000_000;

/// A microphone quieter than this share of the owner's level, in percent, while the
/// speakers play, is the speakers.
pub const ECHO_PERCENT: u64 = 35;

/// How much solo speech it takes to trust the owner's level.
pub const MIN_SOLO_WINDOWS: usize = 80;

/// A run shorter than this is not worth silencing.
pub const MIN_SPAN_MS: u64 = 200_000_000;

/// The loudness of each window of a track.
#[derive(Debug, Clone)]
pub struct Envelope {
    pub window_ms: u64,
    pub rms: Vec<u64>,
}

/// What a measurement found.
#[derive(Debug)]
pub struct Measurement {
    /// Stretches of the microphone that are only the speakers.
    pub spans: Vec<(u64, u64)>,
    /// How loud the owner speaks, when they could be measured alone.
    pub own_voice: Option<u64>,
    /// The typical microphone level while the speakers played.
    pub playing_level: Option<u64>,
}

/// The speakers played at some point in the `reach` windows up to and including `index`.
pub open spec fn played_within(system: Seq<u64>, index: int, reach: int) -> bool {
    exists|j: int|
        0 <= j < system.len() && index - reach <= j <= index && #[trigger] system[j]
            >= SILENCE_LEVEL
}

/// Whether the speakers played at any point whose echo could be arriving now.
pub fn speakers_reach(system: &Vec<u64>, index: usize, reach: usize) -> (played: bool)
    ensures
        played == played_within(system@, index as int, reach as int),
{
    let from: usize = if index < reach {
        0
    } else {
        index - reach
    };
    let mut at: usize = from;
    while at < system.len() && at <= index
        invariant
            from <= at,
            from == if index < reach {
                0int
            } else {
                index - reach
            },
            forall|j: int| from <= j < at && j < system@.len() ==> #[trigger] system@[j]
                < SILENCE_LEVEL,
        decreases system@.len() - at,
    {
        if system[at] >= SILENCE_LEVEL {
            assert(system@[at as int] >= SILENCE_LEVEL);
            return true;
        }
        at += 1;
    }
    false
}

/// How many values are at most `limit`.
pub open spec fn count_upto(values: Seq<u64>, limit: int) -> int
    decreases values.len(),
{
    if values.len() == 0 {
        0
    } else {
        count_upto(values.drop_last(), limit) + if values.last() <= limit {
            1int
        } else {
            0
        }
    }
}

/// In the order of size, `value` stands at place `rank`.
pub open spec fn stands_at_rank(values: Seq<u64>, rank: int, value: int) -> bool {
    count_upto(values, value - 1) <= rank < count_upto(values, value)
}

/// The value in the middle of the values in order; of an even number, the upper one.
pub open spec fn is_median(values: Seq<u64>, value: int) -> bool {
    stands_at_rank(values, values.len() as int / 2, value)
}

proof fn lemma_count_bounds(values: Seq<u64>, limit: int)
    ensures
        0 <= count_upto(values, limit) <= values.len(),
        limit >= u64::MAX ==> count_upto(values, limit) == values.len(),
        limit < 0 ==> count_upto(values, limit) == 0,
    decreases values.len(),
{
    if values.len() > 0 {
        lemma_count_bounds(values.drop_last(), limit);
    }
}

fn counted_upto(values: &Vec<u64>, limit: u64) -> (count: usize)
    ensures
        count == count_upto(values@, limit as int),
{
    let mut count: usize = 0;
    let mut index: usize = 0;
    while index < values.len()
        invariant
            index <= values@.len(),
            count <= index,
            count == count_upto(values@.take(index as int), limit as int),
        decreases values@.len() - index,
    {
        assert(values@.take(index + 1).drop_last() =~= values@.take(index as int));
        if values[index] <= limit {
            count += 1;
        }
        index += 1;
    }
    assert(values@.take(values@.len() as int) =~= values@);
    count
}

/// The value in the middle of the values in order.
pub fn median(values: &Vec<u64>) -> (middle: Option<u64>)
    ensures
        match middle {
            Some(value) => values@.len() > 0 && is_median(values@, value as int),
            None => values@.len() == 0,
        },
{
    if values.len() == 0 {
        return None;
    }
    let rank: usize = values.len() / 2;
    let mut low: u64 = 0;
    let mut high: u64 = u64::MAX;
    proof {
        lemma_count_bounds(values@, -1);
        lemma_count_bounds(values@, u64::MAX as int);
    }
    while low < high
        invariant
            low <= high,
            rank == values@.len() as int / 2,
            count_upto(values@, low - 1) <= rank < count_upto(values@, high as int),
        decreases high - low,
    {
        let middle: u64 = low + (high - low) / 2;
        if counted_upto(values, middle) > rank {
            high = middle;
        } else {
            low = middle + 1;
        }
    }
    Some(low)
}

/// How many windows the echo can reach back, to the nearest.
pub open spec fn reach_of(window: int) -> int {
    (2 * ECHO_REACH_MS + window) / (2 * window)
}

/// The levels of the owner speaking alone, among the first `upto` windows.
pub open spec fn solo_levels(mic: Seq<u64>, system: Seq<u64>, reach: int, upto: int) -> Seq<u64>
    decreases upto,
{
    if upto <= 0 {
        Seq::empty()
    } else {
        let before = solo_levels(mic, system, reach, upto - 1);
        if !played_within(system, upto - 1, reach) && mic[upto - 1] >= VOICE_FLOOR_LEVEL {
            before.push(mic[upto - 1])
        } else {
            before
        }
    }
}

/// The levels of the microphone while the speakers could be heard, among the first `upto`
/// windows, silence left out.
pub open spec fn playing_levels(mic: Seq<u64>, system: Seq<u64>, reach: int, upto: int) -> Seq<u64>
    decreases upto,
{
    if upto <= 0 {
        Seq::empty()
    } else {
        let before = playing_levels(mic, system, reach, upto - 1);
        if played_within(system, upto - 1, reach) && mic[upto - 1] >= SILENCE_LEVEL {
            before.push(mic[upto - 1])
        } else {
            before
        }
    }
}

/// A level well below the owner's own.
pub open spec fn well_below(heard: int, own_voice: int) -> bool {
    heard * 100 < own_voice * ECHO_PERCENT
}

/// The windows that are only the speakers: they could be heard, and the microphone is well
/// below the owner's level.
pub open spec fn echo_windows(mic: Seq<u64>, system: Seq<u64>, reach: int, own_voice: int) -> Seq<
    bool,
> {
    Seq::new(
        mic.len(),
        |i: int| played_within(system, i, reach) && well_below(mic[i] as int, own_voice),
    )
}

/// A window begins inside a stretch of time.
pub open spec fn covers(span: (u64, u64), window: int, index: int) -> bool {
    span.0 <= index * window < span.1
}

/// Measure the echo in a pair of tracks.
pub fn measure(mic: &Envelope, system: &Envelope) -> (found: Measurement)
    requires
        mic.window_ms > 0,
        2 * ECHO_REACH_MS + mic.window_ms <= u64::MAX,
        2 * mic.window_ms <= u64::MAX,
        reach_of(mic.window_ms as int) <= usize::MAX,
        mic.rms@.len() * mic.window_ms <= u64::MAX,
    ensures
        ({
            let reach = reach_of(mic.window_ms as int);
            let all = mic.rms@.len() as int;
            let solo = solo_levels(mic.rms@, system.rms@, reach, all);
            let playing = playing_levels(mic.rms@, system.rms@, reach, all);
            if solo.len() < MIN_SOLO_WINDOWS {
                &&& found.spans@.len() == 0
                &&& found.own_voice is None
                &&& found.playing_level is None
            } else {
                &&& found.own_voice matches Some(own) && is_median(solo, own as int)
                    && are_long_runs(
                    found.spans@,
                    echo_windows(mic.rms@, system.rms@, reach, own as int),
                    mic.window_ms as int,
                    MIN_SPAN_MS as int,
                )
                &&& match found.playing_level {
                    Some(level) => playing.len() > 0 && is_median(playing, level as int),
                    None => playing.len() == 0,
                }
            }
        }),
        found.own_voice is Some ==> solo_levels(
            mic.rms@,
            system.rms@,
            reach_of(mic.window_ms as int),
            mic.rms@.len() as int,
        ).len() >= 80,
        found.own_voice is None ==> found.spans@.len() == 0,
        forall|k: int, index: int|
            0 <= k < found.spans@.len() && #[trigger] covers(
                found.spans@[k],
                mic.window_ms as int,
                index,
            ) ==> 0 <= index < mic.rms@.len() && (found.own_voice matches Some(own) && mic.rms@[index]
                * 100 < own * 35) && speakers_before(
                system.rms@,
                index,
                reach_of(mic.window_ms as int),
            ),
{
    let reach: usize = ((2 * ECHO_REACH_MS + mic.window_ms) / (2 * mic.window_ms)) as usize;
    let total: usize = mic.rms.len();
    let mut solo: Vec<u64> = Vec::new();
    let mut playing: Vec<u64> = Vec::new();
    let mut reached: Vec<bool> = Vec::new();
    let mut index: usize = 0;
    assert(solo@ =~= solo_levels(mic.rms@, system.rms@, reach as int, 0));
    assert(playing@ =~= playing_levels(mic.rms@, system.rms@, reach as int, 0));
    while index < total
        invariant
            index <= total,
            total == mic.rms@.len(),
            solo@ == solo_levels(mic.rms@, system.rms@, reach as int, index as int),
            playing@ == playing_levels(mic.rms@, system.rms@, reach as int, index as int),
            reached@.len() == index,
            forall|i: int|
                0 <= i < index ==> #[trigger] reached@[i] == played_within(
                    system.rms@,
                    i,
                    reach as int,
                ),
        decreases total - index,
    {
        let heard: u64 = mic.rms[index];
        let played = speakers_reach(&system.rms, index, reach);
        if played {
            if heard >= SILENCE_LEVEL {
                playing.push(heard);
            }
        } else {
            if heard >= VOICE_FLOOR_LEVEL {
                solo.push(heard);
            }
        }
        reached.push(played);
        index += 1;
    }
    if solo.len() < MIN_SOLO_WINDOWS {
        return Measurement { spans: Vec::new(), own_voice: None, playing_level: None };
    }
    let own: u64 = match median(&solo) {
        Some(level) => level,
        None => 0,
    };
    let ghost all = echo_windows(mic.rms@, system.rms@, reach as int, own as int);
    let mut marked: Vec<bool> = Vec::new();
    while marked.len() < total
        invariant
            marked@.len() <= total,
            total == mic.rms@.len(),
            reached@.len() == total,
            all == echo_windows(mic.rms@, system.rms@, reach as int, own as int),
            forall|i: int|
                0 <= i < total ==> #[trigger] reached@[i] == played_within(
                    system.rms@,
                    i,
                    reach as int,
                ),
            marked@ =~= all.take(marked@.len() as int),
        decreases total - marked@.len(),
    {
        let at: usize = marked.len();
        let below = (mic.rms[at] as u128) * 100 < (own as u128) * 35;
        marked.push(reached[at] && below);
    }
    assert(marked@ =~= all);
    let spans = long_runs(&marked, mic.window_ms, MIN_SPAN_MS);
    assert forall|k: int, index: int|
        0 <= k < spans@.len() && #[trigger] covers(
            spans@[k],
            mic.window_ms as int,
            index,
        ) implies 0 <= index < mic.rms@.len() && mic.rms@[index] * 100 < own * 35 && speakers_before(
        system.rms@,
        index,
        reach as int,
    ) by {
        what_is_cut_is_well_below_the_owner(
            mic.rms@,
            system.rms@,
            reach as int,
            own as int,
            mic.window_ms as int,
            spans@,
            k,
            index,
        );
    }
    Measurement { spans, own_voice: Some(own), playing_level: median(&playing) }
}

/// The stretches of the microphone track that are nothing but the speakers.
pub fn echo_spans(mic: &Envelope, system: &Envelope) -> (spans: Vec<(u64, u64)>)
    requires
        mic.window_ms > 0,
        2 * ECHO_REACH_MS + mic.window_ms <= u64::MAX,
        2 * mic.window_ms <= u64::MAX,
        reach_of(mic.window_ms as int) <= usize::MAX,
        mic.rms@.len() * mic.window_ms <= u64::MAX,
    ensures
        ({
            let reach = reach_of(mic.window_ms as int);
            let solo = solo_levels(mic.rms@, system.rms@, reach, mic.rms@.len() as int);
            if solo.len() < MIN_SOLO_WINDOWS {
                spans@.len() == 0
            } else {
                exists|own: u64| #[trigger]
                    is_median(solo, own as int) && are_long_runs(
                        spans@,
                        echo_windows(mic.rms@, system.rms@, reach, own as int),
                        mic.window_ms as int,
                        MIN_SPAN_MS as int,
                    )
            }
        }),
{
    measure(mic, system).spans
}

/// Runs of marked windows, with the short ones dropped.
pub fn spans_of(marked: &Vec<bool>, window_ms: u64) -> (spans: Vec<(u64, u64)>)
    requires
        window_ms > 0,
        marked@.len() * window_ms <= u64::MAX,
    ensures
        are_long_runs(spans@, marked@, window_ms as int, MIN_SPAN_MS as int),
{
    long_runs(marked, window_ms, MIN_SPAN_MS)
}

/// How long the first `upto` stretches are together.
pub open spec fn covered(spans: Seq<(u64, u64)>, upto: int) -> int
    decreases upto,
{
    if upto <= 0 {
        0
    } else {
        covered(spans, upto - 1) + spans[upto - 1].1 - spans[upto - 1].0
    }
}

/// How much of the track the spans cover.
pub fn covered_ms(spans: &Vec<(u64, u64)>) -> (total: u128)
    requires
        forall|i: int| 0 <= i < spans@.len() ==> (#[trigger] spans@[i]).0 <= spans@[i].1,
    ensures
        total == covered(spans@, spans@.len() as int),
{
    let mut total: u128 = 0;
    let mut index: usize = 0;
    while index < spans.len()
        invariant
            index <= spans@.len(),
            forall|i: int| 0 <= i < spans@.len() ==> (#[trigger] spans@[i]).0 <= spans@[i].1,
            total == covered(spans@, index as int),
            total <= index * 0xffff_ffff_ffff_ffff,
        decreases spans@.len() - index,
    {
        let (from, to) = spans[index];
        assert(spans@[index as int].0 <= spans@[index as int].1);
        assert(index * 0xffff_ffff_ffff_ffff + 0xffff_ffff_ffff_ffff
            <= 0xffff_ffff_ffff_ffff * 0x1_0000_0000_0000_0000);
        total += (to - from) as u128;
        index += 1;
    }
    total
}

/// The owner is never cut out: a window in which they spoke alone, or at their own level
/// over the other person, lies in no stretch that is silenced.
pub proof fn own_speech_is_never_cut(
    mic: Seq<u64>,
    system: Seq<u64>,
    reach: int,
    own_voice: int,
    window: int,
    index: int,
)
    requires
        0 <= index < mic.len(),
        !played_within(system, index, reach) || !well_below(mic[index] as int, own_voice),
    ensures
        !in_long_run(
            echo_windows(mic, system, reach, own_voice),
            window,
            MIN_SPAN_MS as int,
            index,
        ),
{
    let marks = echo_windows(mic, system, reach, own_voice);
    assert(!marks[index]);
    if in_long_run(marks, window, MIN_SPAN_MS as int, index) {
        let (from, to) = choose|from: int, to: int| #[trigger]
            long_run(marks, window, MIN_SPAN_MS as int, from, to) && from <= index < to;
        assert(marked_run(marks, from, to));
        assert(marks[index]);
    }
}

/// With nothing played nothing is cut.
pub proof fn with_nothing_played_nothing_is_cut(
    mic: Seq<u64>,
    system: Seq<u64>,
    reach: int,
    own_voice: int,
    window: int,
    spans: Seq<(u64, u64)>,
)
    requires
        forall|j: int| 0 <= j < system.len() ==> #[trigger] system[j] < SILENCE_LEVEL,
        are_long_runs(
            spans,
            echo_windows(mic, system, reach, own_voice),
            window,
            MIN_SPAN_MS as int,
        ),
    ensures
        spans.len() == 0,
{
    let marks = echo_windows(mic, system, reach, own_voice);
    if spans.len() > 0 {
        assert(crate::spans::is_long_run(
            spans[0],
            marks,
            window,
            MIN_SPAN_MS as int,
            marks.len() as int,
        ));
        let (from, to) = choose|from: int, to: int| #[trigger]
            long_run(marks, window, MIN_SPAN_MS as int, from, to) && to <= marks.len() && spans[0]
                == crate::spans::stretch(window, from, to);
        assert(marks[from]);
        assert(played_within(system, from, reach));
    }
}

/// The speakers were loud enough to be heard in one of the `reach` windows before this one, or
/// in it.
pub open spec fn speakers_before(system: Seq<u64>, index: int, reach: int) -> bool {
    exists|j: int|
        0 <= j < system.len() && index - reach <= j && j <= index && #[trigger] system[j]
            >= 2_000_000
}

/// What is cut is echo, in numbers: every window of a stretch is quieter than thirty-five
/// hundredths of the owner's voice, and the speakers were heard within the reach before it. A
/// window that is as loud as that, or that nothing was played before, lies in no stretch. Every
/// stretch lasts at least a fifth of a second.
pub proof fn what_is_cut_is_well_below_the_owner(
    mic: Seq<u64>,
    system: Seq<u64>,
    reach: int,
    own_voice: int,
    window: int,
    spans: Seq<(u64, u64)>,
    k: int,
    index: int,
)
    requires
        window > 0,
        mic.len() * window <= u64::MAX,
        are_long_runs(
            spans,
            echo_windows(mic, system, reach, own_voice),
            window,
            MIN_SPAN_MS as int,
        ),
        0 <= k < spans.len(),
    ensures
        spans[k].1 - spans[k].0 >= 200_000_000,
        spans[k].1 <= mic.len() * window,
        spans[k].0 <= index * window < spans[k].1 ==> 0 <= index < mic.len() && mic[index] * 100
            < own_voice * 35 && speakers_before(system, index, reach),
{
    let marks = echo_windows(mic, system, reach, own_voice);
    crate::spans::stretch_is_made_of_marks(spans, marks, window, MIN_SPAN_MS as int, k, index);
    if spans[k].0 <= index * window < spans[k].1 {
        assert(marks[index]);
        let j = choose|j: int|
            0 <= j < system.len() && index - reach <= j <= index && #[trigger] system[j]
                >= SILENCE_LEVEL;
        assert(system[j] >= 2_000_000);
    }
}

/// Nothing that is echo is missed: where for a fifth of a second or longer every window is
/// quieter than thirty-five hundredths of the owner's voice, with the speakers heard within the
/// reach before it, all of it lies in a stretch.
pub proof fn lasting_echo_is_cut(
    mic: Seq<u64>,
    system: Seq<u64>,
    reach: int,
    own_voice: int,
    window: int,
    spans: Seq<(u64, u64)>,
    from: int,
    to: int,
    index: int,
)
    requires
        window > 0,
        mic.len() * window <= u64::MAX,
        are_long_runs(
            spans,
            echo_windows(mic, system, reach, own_voice),
            window,
            MIN_SPAN_MS as int,
        ),
        0 <= from <= index < to <= mic.len(),
        (to - from) * window >= 200_000_000,
        forall|i: int|
            from <= i < to ==> (#[trigger] mic[i]) * 100 < own_voice * 35 && speakers_before(
                system,
                i,
                reach,
            ),
    ensures
        exists|k: int|
            0 <= k < spans.len() && (#[trigger] spans[k]).0 <= index * window && (index + 1) * window
                <= spans[k].1,
{
    let marks = echo_windows(mic, system, reach, own_voice);
    assert forall|i: int| from <= i < to implies #[trigger] marks[i] by {
        assert(mic[i] * 100 < own_voice * 35);
        let j = choose|j: int|
            0 <= j < system.len() && i - reach <= j && j <= i && #[trigger] system[j] >= 2_000_000;
        assert(system[j] >= SILENCE_LEVEL);
    }
    crate::spans::long_marks_are_in_a_stretch(
        spans,
        marks,
        window,
        MIN_SPAN_MS as int,
        from,
        to,
        index,
    );
}

/// An echo may arrive up to half a second after it was played, to the nearest window.
pub proof fn echo_reaches_half_a_second(window: int)
    requires
        window > 0,
    ensures
        1_000_000_000 - window < 2 * reach_of(window) * window <= 1_000_000_000 + window,
{
    let reach = reach_of(window);
    vstd::arithmetic::div_mod::lemma_fundamental_div_mod(1_000_000_000 + window, 2 * window);
    let rest = (1_000_000_000 + window) % (2 * window);
    assert(1_000_000_000 + window == (2 * window) * reach + rest);
    assert((2 * window) * reach == 2 * reach * window) by (nonlinear_arith);
    assert(0 <= rest < 2 * window);
}

/// The owner's voice is measured where they speak alone: a window counts when the microphone is
/// at a hundredth of full scale or above and nothing was played within the reach before it. What
/// the microphone hears of the speakers is measured in the others, silence left out.
pub proof fn levels_are_taken_where_they_belong(
    mic: Seq<u64>,
    system: Seq<u64>,
    reach: int,
    index: int,
)
    requires
        0 <= index < mic.len(),
    ensures
        solo_levels(mic, system, reach, 0).len() == 0,
        playing_levels(mic, system, reach, 0).len() == 0,
        ({
            let before = solo_levels(mic, system, reach, index);
            let after = solo_levels(mic, system, reach, index + 1);
            if mic[index] >= 10_000_000 && !speakers_before(system, index, reach) {
                after == before.push(mic[index])
            } else {
                after == before
            }
        }),
        ({
            let before = playing_levels(mic, system, reach, index);
            let after = playing_levels(mic, system, reach, index + 1);
            if mic[index] >= 2_000_000 && speakers_before(system, index, reach) {
                after == before.push(mic[index])
            } else {
                after == before
            }
        }),
{
    if played_within(system, index, reach) {
        let j = choose|j: int|
            0 <= j < system.len() && index - reach <= j <= index && #[trigger] system[j]
                >= SILENCE_LEVEL;
        assert(system[j] >= 2_000_000);
        assert(speakers_before(system, index, reach));
    }
    if speakers_before(system, index, reach) {
        let j = choose|j: int|
            0 <= j < system.len() && index - reach <= j && j <= index && #[trigger] system[j]
                >= 2_000_000;
        assert(system[j] >= SILENCE_LEVEL);
        assert(played_within(system, index, reach));
    }
}

proof fn lemma_count_is_filter(values: Seq<u64>, limit: int)
    ensures
        count_upto(values, limit) == values.filter(|value: u64| value <= limit).len(),
    decreases values.len(),
{
    reveal(Seq::filter);
    if values.len() > 0 {
        lemma_count_is_filter(values.drop_last(), limit);
    }
}

/// The middle of the values is one of them: no more than half of the values are below it, and
/// more than half are not above it.
pub proof fn median_is_in_the_middle(values: Seq<u64>, value: int)
    requires
        values.len() > 0,
        is_median(values, value),
    ensures
        values.contains(value as u64),
        0 <= value <= u64::MAX,
        values.filter(|other: u64| other <= value - 1).len() <= values.len() / 2,
        values.filter(|other: u64| other <= value).len() > values.len() / 2,
{
    lemma_count_is_filter(values, value);
    lemma_count_is_filter(values, value - 1);
    lemma_median_occurs(values, value);
}

proof fn lemma_median_occurs(values: Seq<u64>, value: int)
    requires
        count_upto(values, value - 1) < count_upto(values, value),
    ensures
        values.contains(value as u64),
        0 <= value <= u64::MAX,
    decreases values.len(),
{
    if values.len() > 0 {
        if values.last() == value {
            assert(values[values.len() - 1] == value as u64);
        } else {
            lemma_median_occurs(values.drop_last(), value);
            let i = choose|i: int|
                0 <= i < values.drop_last().len() && values.drop_last()[i] == value as u64;
            assert(values[i] == value as u64);
        }
    }
}

/// Stretches are counted once each: what a list covers is what its first part covers and what
/// the rest does.
pub proof fn covered_time_adds_up(spans: Seq<(u64, u64)>, span: (u64, u64))
    ensures
        covered(spans.push(span), spans.len() as int + 1) == covered(spans, spans.len() as int) + span.1
            - span.0,
        covered(spans, 0) == 0,
{
    lemma_covered_prefix(spans, span, spans.len() as int);
}

proof fn lemma_covered_prefix(spans: Seq<(u64, u64)>, span: (u64, u64), upto: int)
    requires
        0 <= upto <= spans.len(),
    ensures
        covered(spans.push(span), upto) == covered(spans, upto),
    decreases upto,
{
    if upto > 0 {
        lemma_covered_prefix(spans, span, upto - 1);
    }
}

} // verus!
