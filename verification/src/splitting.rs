//! Cutting a long stretch of speech at its quietest places.
//!
//! Samples are mono, with 32-bit full scale.

use crate::vad::SpeechSegment;
use vstd::prelude::*;

verus! {

/// Samples in a second of the audio that is recognised.
pub const SPEECH_RATE: usize = 16_000;

/// The window that loudness is measured over: a tenth of a second.
pub const ENERGY_WINDOW: usize = 1_600;

/// How far from where a piece should end a quiet place is looked for.
pub const SEARCH_RADIUS: usize = 48_000;

/// How far apart the places are that are tried.
pub const SEARCH_STEP: usize = 160;

/// How much two pieces have in common where no quiet place was found between them.
pub const FALLBACK_OVERLAP: usize = 16_000;

/// The sum of the squares of the first `len` samples from `from` on.
pub open spec fn energy(samples: Seq<i32>, from: int, len: int) -> int
    decreases len,
{
    if len <= 0 {
        0
    } else {
        energy(samples, from, len - 1) + samples[from + len - 1] * samples[from + len - 1]
    }
}

/// The loudness of the window that begins at `at`, as the sum of its squares.
pub open spec fn loudness(samples: Seq<i32>, at: int) -> int {
    energy(samples, at, ENERGY_WINDOW as int)
}

/// A window whose root mean square is at most a fiftieth of full scale.
pub open spec fn is_silent(loudness: int) -> bool {
    loudness * 2_500 <= ENERGY_WINDOW * 0x4000_0000_0000_0000
}

/// Among the first `count` places tried from `from` on, the first one that none is
/// quieter than.
pub open spec fn quietest(samples: Seq<i32>, from: int, count: int) -> int
    decreases count,
{
    if count <= 1 {
        from
    } else {
        let best = quietest(samples, from, count - 1);
        let next = from + (count - 1) * SEARCH_STEP;
        if loudness(samples, next) < loudness(samples, best) {
            next
        } else {
            best
        }
    }
}

/// Where the search for a quiet place begins, for a piece that begins at `pos`: three
/// seconds before where the piece should end, but a second into it.
pub open spec fn search_start(max_samples: int, pos: int) -> int {
    let early = pos + max_samples - SEARCH_RADIUS;
    if early < pos + SPEECH_RATE {
        pos + SPEECH_RATE
    } else {
        early
    }
}

/// Where the search ends: three seconds after where the piece should end, but a
/// window before the end of the audio.
pub open spec fn search_end(total: int, max_samples: int, pos: int) -> int {
    let late = pos + max_samples + SEARCH_RADIUS;
    let last = if total < ENERGY_WINDOW {
        0
    } else {
        total - ENERGY_WINDOW
    };
    if late < last {
        late
    } else {
        last
    }
}

/// How many places are tried.
pub open spec fn places(start: int, end: int) -> int {
    if start + ENERGY_WINDOW <= end {
        (end - ENERGY_WINDOW - start) / (SEARCH_STEP as int) + 1
    } else {
        0
    }
}

/// Where a piece that begins at `pos` should be cut: in the middle of the quietest window
/// near where it should end. Also says whether that window is silent.
pub open spec fn cut_after(samples: Seq<i32>, max_samples: int, pos: int) -> (int, bool) {
    let start = search_start(max_samples, pos);
    let tried = places(start, search_end(samples.len() as int, max_samples, pos));
    let best = quietest(samples, start, tried);
    if tried > 0 {
        (best + ENERGY_WINDOW / 2, is_silent(loudness(samples, best)))
    } else {
        (pos + max_samples, false)
    }
}

/// Where a piece that begins at `pos` ends: where it is cut, a second later if the cut is
/// not silent, and at the end of the audio if the rest is short enough.
pub open spec fn piece_end(samples: Seq<i32>, max_samples: int, pos: int) -> int {
    let total = samples.len() as int;
    if total - pos <= max_samples {
        total
    } else {
        let (split, silent) = cut_after(samples, max_samples, pos);
        if silent {
            split
        } else if split + FALLBACK_OVERLAP < total {
            split + FALLBACK_OVERLAP
        } else {
            total
        }
    }
}

/// Where the piece behind the one that begins at `pos` begins: where that one was cut, so
/// that both hold the second behind a cut that is not silent. Behind the last piece, and
/// where the cut would not move on, it is where that one ends.
pub open spec fn next_begin(samples: Seq<i32>, max_samples: int, pos: int) -> int {
    let end = piece_end(samples, max_samples, pos);
    let split = cut_after(samples, max_samples, pos).0;
    if end < samples.len() && pos < split {
        split
    } else {
        end
    }
}

fn square(value: i32) -> (squared: u128)
    ensures
        squared == value * value,
        squared <= 0x4000_0000_0000_0000,
{
    let wide: i64 = value as i64;
    assert(0 <= value * value <= 0x4000_0000_0000_0000) by (nonlinear_arith)
        requires
            -0x8000_0000 <= value <= 0x7fff_ffff,
    ;
    (wide * wide) as u128
}

fn window_loudness(samples: &Vec<i32>, at: usize) -> (sum: u128)
    requires
        at + ENERGY_WINDOW <= samples@.len(),
    ensures
        sum == loudness(samples@, at as int),
        sum <= ENERGY_WINDOW * 0x4000_0000_0000_0000,
{
    let total: usize = samples.len();
    let mut sum: u128 = 0;
    let mut len: usize = 0;
    while len < ENERGY_WINDOW
        invariant
            len <= ENERGY_WINDOW,
            at + ENERGY_WINDOW <= total,
            total == samples@.len(),
            sum == energy(samples@, at as int, len as int),
            sum <= len * 0x4000_0000_0000_0000,
        decreases ENERGY_WINDOW - len,
    {
        sum += square(samples[at + len]);
        len += 1;
    }
    sum
}

/// A piece never ends where it begins, nor beyond the audio.
proof fn lemma_piece_end_bounds(samples: Seq<i32>, max_samples: int, pos: int)
    requires
        0 <= pos < samples.len(),
        max_samples >= 0,
    ensures
        pos < piece_end(samples, max_samples, pos) <= samples.len(),
        pos < next_begin(samples, max_samples, pos) <= piece_end(samples, max_samples, pos),
        max_samples > 0 && samples.len() - pos > max_samples ==> pos < cut_after(
            samples,
            max_samples,
            pos,
        ).0,
{
    let total = samples.len() as int;
    if total - pos > max_samples {
        let start = search_start(max_samples, pos);
        let end = search_end(total, max_samples, pos);
        let tried = places(start, end);
        lemma_quietest_bounds(samples, start, tried);
        if tried > 0 {
            assert((tried - 1) * SEARCH_STEP <= end - ENERGY_WINDOW - start);
        }
    }
}

proof fn lemma_quietest_bounds(samples: Seq<i32>, from: int, count: int)
    ensures
        from <= quietest(samples, from, count),
        count >= 1 ==> quietest(samples, from, count) <= from + (count - 1) * SEARCH_STEP,
    decreases count,
{
    if count > 1 {
        lemma_quietest_bounds(samples, from, count - 1);
    }
}

/// Where the piece that begins at `pos` ends, and where the one behind it begins.
fn next_cut(samples: &Vec<i32>, max_samples: usize, pos: usize) -> (cut: (usize, usize))
    requires
        pos < samples@.len(),
    ensures
        cut.0 == piece_end(samples@, max_samples as int, pos as int),
        cut.1 == next_begin(samples@, max_samples as int, pos as int),
        pos < cut.1 <= cut.0 <= samples@.len(),
{
    proof {
        lemma_piece_end_bounds(samples@, max_samples as int, pos as int);
    }
    let total: usize = samples.len();
    if total - pos <= max_samples {
        return (total, total);
    }
    let target: usize = pos + max_samples;
    let last: usize = if total < ENERGY_WINDOW {
        0
    } else {
        total - ENERGY_WINDOW
    };
    let stop: usize = if total - target < SEARCH_RADIUS || target + SEARCH_RADIUS > last {
        last
    } else {
        target + SEARCH_RADIUS
    };
    assert(stop == search_end(total as int, max_samples as int, pos as int));
    let mut best: usize = target;
    let mut best_loudness: u128 = 0;
    let mut found = false;
    if total - pos > SPEECH_RATE {
        let start: usize = if target < SEARCH_RADIUS || target - SEARCH_RADIUS < pos + SPEECH_RATE {
            pos + SPEECH_RATE
        } else {
            target - SEARCH_RADIUS
        };
        assert(start == search_start(max_samples as int, pos as int));
        if stop >= ENERGY_WINDOW && start <= stop - ENERGY_WINDOW {
            let ghost mut tried: int = 1;
            let mut at: usize = start;
            best = start;
            best_loudness = window_loudness(samples, start);
            found = true;
            while SEARCH_STEP <= stop - ENERGY_WINDOW - at
                invariant
                    tried >= 1,
                    at == start + (tried - 1) * SEARCH_STEP,
                    start <= best <= at <= stop - ENERGY_WINDOW,
                    ENERGY_WINDOW <= stop <= samples@.len(),
                    best == quietest(samples@, start as int, tried),
                    best_loudness == loudness(samples@, best as int),
                    best_loudness <= ENERGY_WINDOW * 0x4000_0000_0000_0000,
                decreases stop - at,
            {
                at += SEARCH_STEP;
                proof {
                    tried = tried + 1;
                }
                let heard: u128 = window_loudness(samples, at);
                if heard < best_loudness {
                    best_loudness = heard;
                    best = at;
                }
            }
            assert(tried == places(start as int, stop as int));
            best += ENERGY_WINDOW / 2;
        }
    }
    let silent = found && best_loudness * 2_500 <= ENERGY_WINDOW as u128 * 0x4000_0000_0000_0000;
    assert((best as int, silent) == cut_after(samples@, max_samples as int, pos as int));
    if silent {
        (best, best)
    } else if total - best <= FALLBACK_OVERLAP {
        (total, total)
    } else if pos < best {
        (best + FALLBACK_OVERLAP, best)
    } else {
        (best + FALLBACK_OVERLAP, best + FALLBACK_OVERLAP)
    }
}

/// The pieces that the audio from `pos` on is cut into, as the places where they
/// begin and end.
pub open spec fn pieces_from(samples: Seq<i32>, max_samples: int, pos: int) -> Seq<(int, int)>
    decreases samples.len() - pos,
{
    if 0 <= pos < samples.len() && max_samples >= 0 {
        let next = next_begin(samples, max_samples, pos);
        if pos < next <= samples.len() {
            seq![(pos, piece_end(samples, max_samples, pos))] + pieces_from(
                samples,
                max_samples,
                next,
            )
        } else {
            Seq::empty()
        }
    } else {
        Seq::empty()
    }
}

/// How a stretch of speech is cut: not at all, if it is short enough.
pub open spec fn pieces_of(samples: Seq<i32>, max_samples: int) -> Seq<(int, int)> {
    if samples.len() <= max_samples {
        seq![(0, samples.len() as int)]
    } else {
        pieces_from(samples, max_samples, 0)
    }
}

pub open spec fn bounds(pieces: Seq<(usize, usize)>) -> Seq<(int, int)> {
    pieces.map_values(|piece: (usize, usize)| (piece.0 as int, piece.1 as int))
}

/// Where the pieces of a stretch of speech begin and end.
pub fn split_points(samples: &Vec<i32>, max_samples: usize) -> (pieces: Vec<(usize, usize)>)
    ensures
        bounds(pieces@) == pieces_of(samples@, max_samples as int),
{
    let total: usize = samples.len();
    let mut pieces: Vec<(usize, usize)> = Vec::new();
    if total <= max_samples {
        pieces.push((0, total));
        assert(bounds(pieces@) =~= pieces_of(samples@, max_samples as int));
        return pieces;
    }
    let mut pos: usize = 0;
    let ghost all = pieces_from(samples@, max_samples as int, 0);
    assert(bounds(pieces@) + all =~= all);
    while pos < total
        invariant
            pos <= total,
            total == samples@.len(),
            bounds(pieces@) + pieces_from(samples@, max_samples as int, pos as int) == all,
        decreases total - pos,
    {
        let (end, next) = next_cut(samples, max_samples, pos);
        let ghost had = bounds(pieces@);
        let ghost rest = pieces_from(samples@, max_samples as int, next as int);
        pieces.push((pos, end));
        assert(bounds(pieces@) =~= had.push((pos as int, end as int)));
        assert(had.push((pos as int, end as int)) + rest =~= had + (seq![(pos as int, end as int)]
            + rest));
        pos = next;
    }
    assert(bounds(pieces@) + pieces_from(samples@, max_samples as int, pos as int) =~= bounds(
        pieces@,
    ));
    pieces
}

/// The moment of sample `at` among `total` between two moments, to the last unit
/// below.
pub open spec fn moment_at(start: int, end: int, total: int, at: int) -> int {
    if at == 0 {
        start
    } else {
        start + at * (end - start) / total
    }
}

/// The moment of sample `at` among `total` between two moments, whichever of them comes
/// first.
pub fn sample_moment(start: u64, end: u64, total: usize, at: usize) -> (moment: u64)
    requires
        at <= total,
    ensures
        moment == moment_at(start as int, end as int, total as int, at as int),
{
    if at == 0 {
        return start;
    }
    let length: u64 = if start <= end {
        end - start
    } else {
        start - end
    };
    assert(0 <= at * length <= u64::MAX * u64::MAX) by (nonlinear_arith)
        requires
            0 <= at <= u64::MAX,
            0 <= length <= u64::MAX,
    ;
    assert(0 <= at * length <= total * length) by (nonlinear_arith)
        requires
            0 <= at <= total,
            0 <= length,
    ;
    let covered: u128 = at as u128 * length as u128;
    if start <= end {
        assert(0 <= covered as int / (total as int) <= length) by (nonlinear_arith)
            requires
                0 <= covered <= total * length,
                total > 0,
        ;
        start + (covered / total as u128) as u64
    } else {
        // Going back, the last unit below is the next one behind.
        let whole: u128 = covered / total as u128;
        let part: bool = covered % total as u128 > 0;
        let back: u128 = if part {
            whole + 1
        } else {
            whole
        };
        proof {
            lemma_floor_of_negative(covered as int, total as int);
            assert(at * (end - start) == -covered) by (nonlinear_arith)
                requires
                    covered == at * length,
                    length == start - end,
            ;
            assert(0 <= back <= length) by (nonlinear_arith)
                requires
                    0 <= covered <= total * length,
                    total > 0,
                    whole == covered as int / (total as int),
                    part == (covered as int % (total as int) > 0),
                    back == if part {
                        whole + 1
                    } else {
                        whole as int
                    },
            ;
        }
        start - back as u64
    }
}

proof fn lemma_floor_of_negative(covered: int, total: int)
    requires
        covered >= 0,
        total > 0,
    ensures
        (-covered) / total == if covered % total > 0 {
            -(covered / total) - 1
        } else {
            -(covered / total)
        },
{
    let whole = covered / total;
    let part = covered % total;
    vstd::arithmetic::div_mod::lemma_fundamental_div_mod(covered, total);
    assert(covered == total * whole + part);
    if part > 0 {
        assert(-covered == (-whole - 1) * total + (total - part)) by (nonlinear_arith)
            requires
                covered == total * whole + part,
        ;
        vstd::arithmetic::div_mod::lemma_fundamental_div_mod_converse(
            -covered,
            total,
            -whole - 1,
            total - part,
        );
    } else {
        assert(-covered == -whole * total) by (nonlinear_arith)
            requires
                covered == total * whole,
        ;
        vstd::arithmetic::div_mod::lemma_fundamental_div_mod_converse(-covered, total, -whole, 0);
    }
}

fn samples_between(samples: &Vec<i32>, from: usize, to: usize) -> (part: Vec<i32>)
    requires
        from <= to <= samples@.len(),
    ensures
        part@ == samples@.subrange(from as int, to as int),
{
    let mut part: Vec<i32> = Vec::new();
    let mut index: usize = from;
    while index < to
        invariant
            from <= index <= to <= samples@.len(),
            part@ =~= samples@.subrange(from as int, index as int),
        decreases to - index,
    {
        part.push(samples[index]);
        index += 1;
    }
    part
}

/// `part` is the piece of `segment` from `from` up to `to`.
pub open spec fn is_piece(segment: SpeechSegment<i32>, part: SpeechSegment<i32>, from: int, to: int) -> bool {
    &&& part.samples@ == segment.samples@.subrange(from, to)
    &&& part.confidence == segment.confidence
    &&& part.start_timestamp_ms == moment_at(
        segment.start_timestamp_ms as int,
        segment.end_timestamp_ms as int,
        segment.samples@.len() as int,
        from,
    )
    &&& part.end_timestamp_ms == if to == segment.samples@.len() {
        segment.end_timestamp_ms as int
    } else {
        moment_at(
            segment.start_timestamp_ms as int,
            segment.end_timestamp_ms as int,
            segment.samples@.len() as int,
            to,
        )
    }
}

/// Cuts a long stretch of speech near every `max_samples`, at the quietest place
/// within three seconds. Where nothing near is silent, the pieces on both sides hold the
/// second behind the cut, so that no word is cut.
pub fn split_segment_at_silence(segment: &SpeechSegment<i32>, max_samples: usize) -> (parts: Vec<
    SpeechSegment<i32>,
>)
    ensures
        parts@.len() == pieces_of(segment.samples@, max_samples as int).len(),
        forall|i: int|
            0 <= i < parts@.len() ==> is_piece(
                *segment,
                #[trigger] parts@[i],
                pieces_of(segment.samples@, max_samples as int)[i].0,
                pieces_of(segment.samples@, max_samples as int)[i].1,
            ),
{
    let pieces = split_points(&segment.samples, max_samples);
    let ghost planned = pieces_of(segment.samples@, max_samples as int);
    proof {
        lemma_pieces_inside(segment.samples@, max_samples as int);
    }
    let total: usize = segment.samples.len();
    let mut parts: Vec<SpeechSegment<i32>> = Vec::new();
    assert(bounds(pieces@).len() == pieces@.len());
    while parts.len() < pieces.len()
        invariant
            parts@.len() <= pieces@.len(),
            planned == bounds(pieces@),
            planned.len() == pieces@.len(),
            total == segment.samples@.len(),
            forall|i: int|
                0 <= i < planned.len() ==> 0 <= (#[trigger] planned[i]).0 <= planned[i].1 <= total,
            forall|i: int|
                0 <= i < parts@.len() ==> is_piece(
                    *segment,
                    #[trigger] parts@[i],
                    planned[i].0,
                    planned[i].1,
                ),
        decreases pieces@.len() - parts@.len(),
    {
        let index: usize = parts.len();
        let (from, to) = pieces[index];
        assert(planned[index as int] == (from as int, to as int));
        let begins: u64 = sample_moment(
            segment.start_timestamp_ms,
            segment.end_timestamp_ms,
            total,
            from,
        );
        let ends: u64 = if to == total {
            segment.end_timestamp_ms
        } else {
            sample_moment(segment.start_timestamp_ms, segment.end_timestamp_ms, total, to)
        };
        parts.push(
            SpeechSegment {
                samples: samples_between(&segment.samples, from, to),
                start_timestamp_ms: begins,
                end_timestamp_ms: ends,
                confidence: segment.confidence,
            },
        );
    }
    parts
}

/// Nothing is left out between a piece and the next one. They have the second behind the
/// cut in common exactly where the cut is not silent; `repeats` says whether that is
/// asked for.
pub open spec fn joins(
    samples: Seq<i32>,
    max_samples: int,
    piece: (int, int),
    next: (int, int),
    repeats: bool,
) -> bool {
    &&& piece.0 < next.0 <= piece.1 < samples.len()
    &&& piece.1 <= next.1
    &&& repeats ==> piece.1 < next.1 && piece.1 - next.0 == if cut_after(samples, max_samples, piece.0).1 {
        0
    } else {
        FALLBACK_OVERLAP as int
    }
}

proof fn lemma_pieces_from_cover(samples: Seq<i32>, max_samples: int, pos: int)
    requires
        0 <= pos < samples.len(),
        max_samples >= 0,
    ensures
        ({
            let all = pieces_from(samples, max_samples, pos);
            &&& all.len() > 0
            &&& all[0] == (pos, piece_end(samples, max_samples, pos))
            &&& all.last().1 == samples.len()
            &&& forall|i: int|
                0 <= i < all.len() ==> 0 <= (#[trigger] all[i]).0 < all[i].1 <= samples.len()
            &&& forall|i: int, j: int|
                0 <= i && j == i + 1 && j < all.len() ==> joins(
                    samples,
                    max_samples,
                    #[trigger] all[i],
                    #[trigger] all[j],
                    max_samples > 0,
                )
        }),
    decreases samples.len() - pos,
{
    lemma_piece_end_bounds(samples, max_samples, pos);
    let end = piece_end(samples, max_samples, pos);
    let next = next_begin(samples, max_samples, pos);
    let all = pieces_from(samples, max_samples, pos);
    let rest = pieces_from(samples, max_samples, next);
    assert(all =~= seq![(pos, end)] + rest);
    if next < samples.len() {
        lemma_pieces_from_cover(samples, max_samples, next);
        lemma_later_piece_ends_later(samples, max_samples, pos);
        assert(all.last() == rest.last());
        assert forall|i: int| 0 <= i < all.len() implies 0 <= (#[trigger] all[i]).0 < all[i].1
            <= samples.len() by {
            if i > 0 {
                assert(all[i] == rest[i - 1]);
            }
        }
        assert forall|i: int, j: int| 0 <= i && j == i + 1 && j < all.len() implies joins(
            samples,
            max_samples,
            #[trigger] all[i],
            #[trigger] all[j],
            max_samples > 0,
        ) by {
            assert(all[j] == rest[j - 1]);
            if i > 0 {
                assert(all[i] == rest[i - 1]);
            }
        }
    } else {
        assert(rest =~= Seq::<(int, int)>::empty());
    }
}

/// A piece ends behind the one before it, if pieces of any length are asked for.
proof fn lemma_later_piece_ends_later(samples: Seq<i32>, max_samples: int, pos: int)
    requires
        0 <= pos < samples.len(),
        max_samples >= 0,
        next_begin(samples, max_samples, pos) < samples.len(),
    ensures
        ({
            let end = piece_end(samples, max_samples, pos);
            let later = piece_end(samples, max_samples, next_begin(samples, max_samples, pos));
            end <= later && (max_samples > 0 ==> end < later)
        }),
{
    let next = next_begin(samples, max_samples, pos);
    let total = samples.len() as int;
    lemma_piece_end_bounds(samples, max_samples, pos);
    lemma_piece_end_bounds(samples, max_samples, next);
    let start = search_start(max_samples, next);
    let tried = places(start, search_end(total, max_samples, next));
    lemma_quietest_bounds(samples, start, tried);
}

/// Every piece lies inside the audio.
pub proof fn lemma_pieces_inside(samples: Seq<i32>, max_samples: int)
    requires
        max_samples >= 0,
    ensures
        forall|i: int|
            0 <= i < pieces_of(samples, max_samples).len() ==> 0 <= (
            #[trigger] pieces_of(samples, max_samples)[i]).0 <= pieces_of(samples, max_samples)[i].1
                <= samples.len(),
{
    if samples.len() > max_samples {
        lemma_pieces_from_cover(samples, max_samples, 0);
    }
}

/// Cutting loses nothing: the first piece begins with the speech, the last one ends with
/// it, and between two that follow each other nothing is left out. Two of them have a second
/// in common exactly where the cut between them is not silent, and every piece ends behind the
/// one before it, as long as pieces of any length at all are asked for.
pub proof fn pieces_cover_the_speech(samples: Seq<i32>, max_samples: int)
    requires
        max_samples >= 0,
        samples.len() > 0,
    ensures
        ({
            let pieces = pieces_of(samples, max_samples);
            &&& pieces.len() > 0
            &&& pieces[0].0 == 0
            &&& pieces.last().1 == samples.len()
            &&& forall|i: int, j: int|
                0 <= i && j == i + 1 && j < pieces.len() ==> joins(
                    samples,
                    max_samples,
                    #[trigger] pieces[i],
                    #[trigger] pieces[j],
                    max_samples > 0,
                )
        }),
{
    if samples.len() > max_samples {
        lemma_pieces_from_cover(samples, max_samples, 0);
    }
}

/// No piece is longer than asked for by more than the three seconds a quiet place is
/// looked for in and the second it may run on.
pub proof fn pieces_are_not_much_longer(samples: Seq<i32>, max_samples: int, pos: int)
    requires
        0 <= pos < samples.len(),
        max_samples >= SPEECH_RATE,
    ensures
        piece_end(samples, max_samples, pos) - pos <= max_samples + SEARCH_RADIUS
            + FALLBACK_OVERLAP,
{
    let total = samples.len() as int;
    if total - pos > max_samples {
        let start = search_start(max_samples, pos);
        let end = search_end(total, max_samples, pos);
        let tried = places(start, end);
        lemma_quietest_bounds(samples, start, tried);
        if tried > 0 {
            assert((tried - 1) * SEARCH_STEP <= end - ENERGY_WINDOW - start);
        }
    }
}

/// Loudness is the sum of the squares of the samples: it adds up over neighbouring stretches,
/// one sample has its square, and none has nothing.
pub proof fn loudness_adds_up(samples: Seq<i32>, from: int, len: int, more: int)
    requires
        len >= 0,
        more >= 0,
    ensures
        energy(samples, from, len + more) == energy(samples, from, len) + energy(
            samples,
            from + len,
            more,
        ),
        energy(samples, from, 1) == samples[from] * samples[from],
        energy(samples, from, 0) == 0,
        loudness(samples, from) == energy(samples, from, 1_600),
    decreases more,
{
    reveal_with_fuel(energy, 2);
    if more > 0 {
        loudness_adds_up(samples, from, len, more - 1);
    }
}

proof fn lemma_square_is_in_energy(samples: Seq<i32>, from: int, len: int, index: int)
    requires
        from <= index < from + len,
    ensures
        energy(samples, from, len) >= samples[index] * samples[index],
        energy(samples, from, len) >= 0,
    decreases len,
{
    reveal_with_fuel(energy, 2);
    let last = samples[from + len - 1];
    assert(last * last >= 0) by (nonlinear_arith);
    assert(energy(samples, from, len) == energy(samples, from, len - 1) + last * last);
    if index < from + len - 1 {
        lemma_square_is_in_energy(samples, from, len - 1, index);
    } else if len > 1 {
        lemma_square_is_in_energy(samples, from, len - 1, from);
    }
}

proof fn lemma_quietest_is_quietest(samples: Seq<i32>, from: int, count: int, tried: int)
    requires
        0 <= tried < count,
    ensures
        loudness(samples, quietest(samples, from, count)) <= loudness(samples, from + 160 * tried),
        exists|j: int|
            0 <= j < count && quietest(samples, from, count) == from + #[trigger] (160 * j),
    decreases count,
{
    if count <= 1 {
        assert(quietest(samples, from, count) == from + 160 * 0);
    } else {
        if tried < count - 1 {
            lemma_quietest_is_quietest(samples, from, count - 1, tried);
        } else {
            lemma_quietest_is_quietest(samples, from, count - 1, 0);
        }
        let before = quietest(samples, from, count - 1);
        let j = choose|j: int| 0 <= j < count - 1 && before == from + #[trigger] (160 * j);
        if quietest(samples, from, count) == before {
            assert(quietest(samples, from, count) == from + 160 * j);
        } else {
            assert(quietest(samples, from, count) == from + 160 * (count - 1));
        }
    }
}

/// A window is a place that a cut is looked for in, for a piece that begins at `pos`: within
/// three seconds of where the piece should end, a second or more into it, and a tenth of a
/// second from the end of the audio; one every hundredth of a second.
pub open spec fn is_tried(total: int, max_samples: int, pos: int, window: int) -> bool {
    let first = if max_samples >= 64_000 {
        pos + max_samples - 48_000
    } else {
        pos + 16_000
    };
    &&& first <= window
    &&& (window - first) % 160 == 0
    &&& window + 1_600 <= pos + max_samples + 48_000
    &&& window + 1_600 <= total - 1_600
}

/// A long piece is cut in the middle of a window that no other place tried is quieter than, by
/// the sum of the squares of all its samples. The cut is silent exactly when the mean of them
/// is at most the square of a fiftieth of full scale; then no sample of the window is above
/// what that allows. Where no place can be tried, the piece is cut where it should end.
pub proof fn cut_is_at_the_quietest_place(samples: Seq<i32>, max_samples: int, pos: int)
    requires
        0 <= pos < samples.len(),
        max_samples >= 0,
        samples.len() - pos > max_samples,
    ensures
        ({
            let total = samples.len() as int;
            let (cut, silent) = cut_after(samples, max_samples, pos);
            let window = cut - 800;
            let first = if max_samples >= 64_000 {
                pos + max_samples - 48_000
            } else {
                pos + 16_000
            };
            if is_tried(total, max_samples, pos, first) {
                &&& is_tried(total, max_samples, pos, window)
                &&& forall|other: int| #[trigger]
                    is_tried(total, max_samples, pos, other) ==> energy(samples, window, 1_600)
                        <= energy(samples, other, 1_600)
                &&& silent <==> energy(samples, window, 1_600) * 2_500 <= 1_600
                    * 0x4000_0000_0000_0000
                &&& silent ==> forall|i: int|
                    window <= i < window + 1_600 ==> (#[trigger] samples[i]) * samples[i] * 2_500
                        <= 1_600 * 0x4000_0000_0000_0000
            } else {
                cut == pos + max_samples && !silent
            }
        }),
{
    let total = samples.len() as int;
    let (cut, silent) = cut_after(samples, max_samples, pos);
    let start = search_start(max_samples, pos);
    let end = search_end(total, max_samples, pos);
    let tried = places(start, end);
    let window = cut - 800;
    if is_tried(total, max_samples, pos, start) {
        assert(start + ENERGY_WINDOW <= end);
        assert(tried >= 1);
        let best = quietest(samples, start, tried);
        lemma_quietest_is_quietest(samples, start, tried, 0);
        let j = choose|j: int| 0 <= j < tried && best == start + #[trigger] (160 * j);
        assert(160 * (tried - 1) <= end - ENERGY_WINDOW - start);
        assert(best + 1_600 <= end);
        assert((best - start) % 160 == 0);
        assert forall|other: int| #[trigger] is_tried(total, max_samples, pos, other) implies energy(
            samples,
            window,
            1_600,
        ) <= energy(samples, other, 1_600) by {
            let k = (other - start) / 160;
            assert(other == start + 160 * k);
            assert(k < tried);
            lemma_quietest_is_quietest(samples, start, tried, k);
        }
        if silent {
            assert forall|i: int| window <= i < window + 1_600 implies (#[trigger] samples[i])
                * samples[i] * 2_500 <= 1_600 * 0x4000_0000_0000_0000 by {
                lemma_square_is_in_energy(samples, window, 1_600, i);
            }
        }
    } else {
        assert(tried == 0);
    }
}

/// A piece ends at its cut where that is silent, and otherwise a second behind it, or with the
/// audio; the next one begins at the cut. The last piece is what is short enough.
pub proof fn pieces_end_and_begin_at_the_cut(samples: Seq<i32>, max_samples: int, pos: int)
    requires
        0 <= pos < samples.len(),
        max_samples > 0,
    ensures
        ({
            let total = samples.len() as int;
            let end = piece_end(samples, max_samples, pos);
            let next = next_begin(samples, max_samples, pos);
            let (cut, silent) = cut_after(samples, max_samples, pos);
            if total - pos <= max_samples {
                end == total && next == total
            } else {
                &&& pos < cut <= total
                &&& silent ==> end == cut && next == cut
                &&& !silent && cut + 16_000 < total ==> end == cut + 16_000 && next == cut
                &&& !silent && cut + 16_000 >= total ==> end == total && next == total
            }
        }),
{
    lemma_piece_end_bounds(samples, max_samples, pos);
    let total = samples.len() as int;
    if total - pos > max_samples {
        let start = search_start(max_samples, pos);
        let end = search_end(total, max_samples, pos);
        let tried = places(start, end);
        lemma_quietest_bounds(samples, start, tried);
        if tried > 0 {
            assert((tried - 1) * SEARCH_STEP <= end - ENERGY_WINDOW - start);
        }
    }
}

/// The pieces are these ends and beginnings, one after the other, until the audio is over;
/// audio that is short enough is one piece.
pub proof fn pieces_follow_each_other(samples: Seq<i32>, max_samples: int, pos: int)
    requires
        0 <= pos < samples.len(),
        max_samples > 0,
    ensures
        ({
            let all = pieces_from(samples, max_samples, pos);
            let next = next_begin(samples, max_samples, pos);
            &&& all.len() > 0
            &&& all[0] == (pos, piece_end(samples, max_samples, pos))
            &&& next == samples.len() ==> all.len() == 1
            &&& next < samples.len() ==> all.drop_first() == pieces_from(samples, max_samples, next)
        }),
        samples.len() <= max_samples ==> pieces_of(samples, max_samples) == seq![
            (0int, samples.len() as int),
        ],
        samples.len() > max_samples ==> pieces_of(samples, max_samples) == pieces_from(
            samples,
            max_samples,
            0,
        ),
{
    lemma_piece_end_bounds(samples, max_samples, pos);
    let all = pieces_from(samples, max_samples, pos);
    let rest = pieces_from(samples, max_samples, next_begin(samples, max_samples, pos));
    assert(all.drop_first() =~= rest);
}

/// Time runs evenly over a stretch: it begins and ends where the stretch does, and each sample's
/// moment is its share of the way, to the last unit below.
pub proof fn moments_are_shared_out_evenly(start: int, end: int, total: int, at: int)
    requires
        0 <= at <= total,
        total > 0,
    ensures
        moment_at(start, end, total, 0) == start,
        moment_at(start, end, total, total) == end,
        ({
            let gone = moment_at(start, end, total, at) - start;
            0 <= at * (end - start) - gone * total < total
        }),
{
    vstd::arithmetic::div_mod::lemma_fundamental_div_mod(at * (end - start), total);
    vstd::arithmetic::div_mod::lemma_fundamental_div_mod(total * (end - start), total);
    let share = at * (end - start) / total;
    assert(total * share == share * total) by (nonlinear_arith);
    assert(total * (end - start) / total == end - start) by {
        vstd::arithmetic::div_mod::lemma_div_multiples_vanish(end - start, total);
    }
    if at == 0 {
        assert(at * (end - start) == 0) by (nonlinear_arith)
            requires
                at == 0,
        ;
    }
}

} // verus!
