//! What the owner corrected by hand stays when a recording is recognised again.
//!
//! The lines of a new run fill in around the corrected ones. Times are counted as in
//! [`crate::own_speech`].

use crate::common::StoredTranscript;
use vstd::prelude::*;

verus! {

/// A line as it is stored, and whether the owner corrected it.
#[derive(Debug)]
pub struct StoredLine {
    pub line: StoredTranscript,
    pub corrected: bool,
}

/// Both lines were spoken over some moment. A line without its times lies nowhere.
pub open spec fn overlap(a: StoredTranscript, b: StoredTranscript) -> bool {
    match (a.audio_start_time, a.audio_end_time, b.audio_start_time, b.audio_end_time) {
        (Some(a_start), Some(a_end), Some(b_start), Some(b_end)) => a_start < b_end && b_start
            < a_end,
        _ => false,
    }
}

/// A corrected line was spoken over some moment of this one.
pub open spec fn is_corrected_over(stored: Seq<StoredLine>, line: StoredTranscript) -> bool {
    exists|i: int|
        0 <= i < stored.len() && (#[trigger] stored[i]).corrected && overlap(stored[i].line, line)
}

/// The corrected ones of the stored lines.
pub open spec fn corrected_lines(stored: Seq<StoredLine>) -> Seq<StoredTranscript>
    decreases stored.len(),
{
    if stored.len() == 0 {
        Seq::empty()
    } else {
        let rest = corrected_lines(stored.drop_first());
        if stored[0].corrected {
            seq![stored[0].line] + rest
        } else {
            rest
        }
    }
}

/// The new lines that fill in around the corrected ones.
pub open spec fn filling_lines(
    stored: Seq<StoredLine>,
    fresh: Seq<StoredTranscript>,
) -> Seq<StoredTranscript>
    decreases fresh.len(),
{
    if fresh.len() == 0 {
        Seq::empty()
    } else {
        let rest = filling_lines(stored, fresh.drop_first());
        if is_corrected_over(stored, fresh[0]) {
            rest
        } else {
            seq![fresh[0]] + rest
        }
    }
}

/// When a line begins; one without its times comes first.
pub open spec fn begin_of(line: StoredTranscript) -> u64 {
    match line.audio_start_time {
        Some(start) => start,
        None => 0,
    }
}

/// Lines with one more, before the first that does not begin earlier.
pub open spec fn with_line(lines: Seq<StoredTranscript>, line: StoredTranscript) -> Seq<
    StoredTranscript,
>
    decreases lines.len(),
{
    if lines.len() == 0 || begin_of(line) <= begin_of(lines[0]) {
        seq![line] + lines
    } else {
        seq![lines[0]] + with_line(lines.drop_first(), line)
    }
}

/// Lines in the order they were spoken in. Those that begin together stay as they are.
pub open spec fn spoken(lines: Seq<StoredTranscript>) -> Seq<StoredTranscript>
    decreases lines.len(),
{
    if lines.len() == 0 {
        Seq::empty()
    } else {
        with_line(spoken(lines.drop_first()), lines[0])
    }
}

/// What is stored after a new run: the corrected lines, and the new ones around them.
pub open spec fn merged(stored: Seq<StoredLine>, fresh: Seq<StoredTranscript>) -> Seq<
    StoredTranscript,
> {
    spoken(corrected_lines(stored) + filling_lines(stored, fresh))
}

/// Every line begins no earlier than the one before it.
pub open spec fn in_spoken_order(lines: Seq<StoredTranscript>) -> bool {
    forall|i: int, j: int|
        0 <= i < j < lines.len() ==> begin_of(#[trigger] lines[i]) <= begin_of(#[trigger] lines[j])
}

fn begins(line: &StoredTranscript) -> (start: u64)
    ensures
        start == begin_of(*line),
{
    match line.audio_start_time {
        Some(start) => start,
        None => 0,
    }
}

fn overlaps(a: &StoredTranscript, b: &StoredTranscript) -> (both: bool)
    ensures
        both == overlap(*a, *b),
{
    match (a.audio_start_time, a.audio_end_time, b.audio_start_time, b.audio_end_time) {
        (Some(a_start), Some(a_end), Some(b_start), Some(b_end)) => a_start < b_end && b_start
            < a_end,
        _ => false,
    }
}

fn corrected_over(stored: &Vec<StoredLine>, line: &StoredTranscript) -> (found: bool)
    ensures
        found == is_corrected_over(stored@, *line),
{
    let mut index: usize = 0;
    while index < stored.len()
        invariant
            index <= stored@.len(),
            forall|i: int|
                0 <= i < index ==> !((#[trigger] stored@[i]).corrected && overlap(
                    stored@[i].line,
                    *line,
                )),
        decreases stored@.len() - index,
    {
        if stored[index].corrected && overlaps(&stored[index].line, line) {
            return true;
        }
        index += 1;
    }
    false
}

proof fn lemma_with_line_at(lines: Seq<StoredTranscript>, line: StoredTranscript, place: int)
    requires
        0 <= place <= lines.len(),
        forall|i: int| 0 <= i < place ==> begin_of(#[trigger] lines[i]) < begin_of(line),
        place < lines.len() ==> begin_of(line) <= begin_of(lines[place]),
    ensures
        with_line(lines, line) == lines.insert(place, line),
    decreases lines.len(),
{
    if place > 0 {
        assert(begin_of(lines[0]) < begin_of(line));
        let rest = lines.drop_first();
        assert forall|i: int| 0 <= i < place - 1 implies begin_of(#[trigger] rest[i]) < begin_of(
            line,
        ) by {
            assert(rest[i] == lines[i + 1]);
        }
        lemma_with_line_at(rest, line, place - 1);
        assert(seq![lines[0]] + rest.insert(place - 1, line) =~= lines.insert(place, line));
    } else {
        assert(seq![line] + lines =~= lines.insert(0, line));
    }
}

fn add_line(lines: &mut Vec<StoredTranscript>, line: StoredTranscript)
    ensures
        final(lines)@ == with_line(old(lines)@, line),
{
    let start = begins(&line);
    let mut place: usize = 0;
    while place < lines.len() && begins(&lines[place]) < start
        invariant
            place <= lines@.len(),
            start == begin_of(line),
            forall|i: int| 0 <= i < place ==> begin_of(#[trigger] lines@[i]) < begin_of(line),
        decreases lines@.len() - place,
    {
        place += 1;
    }
    proof {
        lemma_with_line_at(lines@, line, place as int);
    }
    lines.insert(place, line);
}

/// `spoken` of a list is reached from its end.
proof fn lemma_spoken_step(before: Seq<StoredTranscript>, line: StoredTranscript, rest: Seq<
    StoredTranscript,
>)
    ensures
        spoken(before.push(line) + rest) == spoken(before + (seq![line] + rest)),
        spoken(seq![line] + rest) == with_line(spoken(rest), line),
{
    assert(before.push(line) + rest =~= before + (seq![line] + rest));
    assert((seq![line] + rest).drop_first() =~= rest);
}

proof fn lemma_corrected_push(stored: Seq<StoredLine>, last: StoredLine)
    ensures
        corrected_lines(stored.push(last)) == if last.corrected {
            corrected_lines(stored).push(last.line)
        } else {
            corrected_lines(stored)
        },
    decreases stored.len(),
{
    reveal_with_fuel(corrected_lines, 2);
    let all = stored.push(last);
    if stored.len() == 0 {
        assert(all.drop_first() =~= Seq::<StoredLine>::empty());
        assert(seq![last.line] + Seq::<StoredTranscript>::empty() =~= Seq::<
            StoredTranscript,
        >::empty().push(last.line));
    } else {
        assert(all.drop_first() =~= stored.drop_first().push(last));
        lemma_corrected_push(stored.drop_first(), last);
        let rest = corrected_lines(stored.drop_first());
        assert(seq![stored[0].line] + rest.push(last.line) =~= (seq![stored[0].line] + rest).push(
            last.line,
        ));
    }
}

proof fn lemma_filling_push(
    stored: Seq<StoredLine>,
    fresh: Seq<StoredTranscript>,
    last: StoredTranscript,
)
    ensures
        filling_lines(stored, fresh.push(last)) == if is_corrected_over(stored, last) {
            filling_lines(stored, fresh)
        } else {
            filling_lines(stored, fresh).push(last)
        },
    decreases fresh.len(),
{
    reveal_with_fuel(filling_lines, 2);
    let all = fresh.push(last);
    if fresh.len() == 0 {
        assert(all.drop_first() =~= Seq::<StoredTranscript>::empty());
        assert(seq![last] + Seq::<StoredTranscript>::empty() =~= Seq::<
            StoredTranscript,
        >::empty().push(last));
    } else {
        assert(all.drop_first() =~= fresh.drop_first().push(last));
        lemma_filling_push(stored, fresh.drop_first(), last);
        let rest = filling_lines(stored, fresh.drop_first());
        assert(seq![fresh[0]] + rest.push(last) =~= (seq![fresh[0]] + rest).push(last));
    }
}

/// What is stored after a new run: every corrected line as the owner left it, and every new
/// line that was not spoken over one of them, in the order they were spoken in.
pub fn merged_transcript(stored: Vec<StoredLine>, fresh: Vec<StoredTranscript>) -> (lines: Vec<
    StoredTranscript,
>)
    ensures
        lines@ == merged(stored@, fresh@),
        in_spoken_order(lines@),
        forall|i: int|
            0 <= i < stored@.len() && (#[trigger] stored@[i]).corrected ==> lines@.contains(
                stored@[i].line,
            ),
        forall|i: int|
            0 <= i < fresh@.len() && !is_corrected_over(stored@, #[trigger] fresh@[i])
                ==> lines@.contains(fresh@[i]),
        forall|i: int, k: int|
            0 <= i < stored@.len() && (#[trigger] stored@[i]).corrected && 0 <= k < lines@.len()
                && !is_corrected_line(stored@, #[trigger] lines@[k]) ==> match (
                stored@[i].line.audio_start_time,
                stored@[i].line.audio_end_time,
                lines@[k].audio_start_time,
                lines@[k].audio_end_time,
            ) {
                (Some(a), Some(b), Some(c), Some(d)) => b <= c || d <= a,
                _ => true,
            },
{
    let ghost kept = stored@;
    let ghost found = fresh@;
    let mut stored = stored;
    let mut fresh = fresh;
    let mut lines: Vec<StoredTranscript> = Vec::new();
    let ghost mut done: Seq<StoredTranscript> = Seq::empty();
    assert(filling_lines(kept, fresh@) + done =~= filling_lines(kept, found));
    while fresh.len() > 0
        invariant
            stored@ == kept,
            filling_lines(kept, fresh@) + done == filling_lines(kept, found),
            lines@ == spoken(done),
        decreases fresh@.len(),
    {
        let ghost all = fresh@;
        match fresh.pop() {
            Some(line) => {
                proof {
                    assert(all =~= fresh@.push(line));
                    lemma_filling_push(kept, fresh@, line);
                }
                if !corrected_over(&stored, &line) {
                    proof {
                        lemma_spoken_step(filling_lines(kept, fresh@), line, done);
                        assert(filling_lines(kept, fresh@).push(line) + done =~= filling_lines(
                            kept,
                            fresh@,
                        ) + (seq![line] + done));
                        done = seq![line] + done;
                    }
                    add_line(&mut lines, line);
                }
            },
            None => {},
        }
    }
    assert(filling_lines(kept, fresh@) =~= Seq::<StoredTranscript>::empty());
    assert(done =~= filling_lines(kept, found));
    let ghost goal = corrected_lines(kept) + filling_lines(kept, found);
    while stored.len() > 0
        invariant
            corrected_lines(stored@) + done == goal,
            lines@ == spoken(done),
        decreases stored@.len(),
    {
        let ghost all = stored@;
        match stored.pop() {
            Some(last) => {
                proof {
                    assert(all =~= stored@.push(last));
                    lemma_corrected_push(stored@, last);
                }
                if last.corrected {
                    proof {
                        let before = corrected_lines(stored@);
                        lemma_spoken_step(before, last.line, done);
                        assert(before.push(last.line) + done =~= before + (seq![last.line] + done));
                        done = seq![last.line] + done;
                    }
                    add_line(&mut lines, last.line);
                }
            },
            None => {},
        }
    }
    assert(corrected_lines(stored@) =~= Seq::<StoredTranscript>::empty());
    assert(done =~= goal);
    proof {
        corrections_have_the_last_word(kept, found);
        assert forall|i: int, k: int|
            0 <= i < kept.len() && (#[trigger] kept[i]).corrected && 0 <= k < lines@.len()
                && !is_corrected_line(kept, #[trigger] lines@[k]) implies match (
            kept[i].line.audio_start_time,
            kept[i].line.audio_end_time,
            lines@[k].audio_start_time,
            lines@[k].audio_end_time,
        ) {
            (Some(a), Some(b), Some(c), Some(d)) => b <= c || d <= a,
            _ => true,
        } by {
            new_lines_keep_clear_of_corrections(kept, found, lines@[k], i);
        }
    }
    lines
}

proof fn lemma_with_line_holds(lines: Seq<StoredTranscript>, line: StoredTranscript)
    ensures
        forall|x: StoredTranscript| #[trigger]
            with_line(lines, line).contains(x) <==> x == line || lines.contains(x),
        in_spoken_order(lines) ==> in_spoken_order(with_line(lines, line)),
        with_line(lines, line).len() == lines.len() + 1,
    decreases lines.len(),
{
    let longer = with_line(lines, line);
    if lines.len() == 0 || begin_of(line) <= begin_of(lines[0]) {
        assert forall|x: StoredTranscript| #[trigger] longer.contains(x) <==> x == line
            || lines.contains(x) by {
            if x == line {
                assert(longer[0] == x);
            }
            if lines.contains(x) {
                let k = choose|k: int| 0 <= k < lines.len() && lines[k] == x;
                assert(longer[k + 1] == x);
            }
        }
        if in_spoken_order(lines) {
            assert forall|i: int, j: int| 0 <= i < j < longer.len() implies begin_of(
                #[trigger] longer[i],
            ) <= begin_of(#[trigger] longer[j]) by {
                assert(longer[j] == lines[j - 1]);
                if i > 0 {
                    assert(longer[i] == lines[i - 1]);
                } else if j > 1 {
                    assert(begin_of(lines[0]) <= begin_of(lines[j - 1]));
                }
            }
        }
    } else {
        let rest = lines.drop_first();
        lemma_with_line_holds(rest, line);
        let more = with_line(rest, line);
        assert forall|x: StoredTranscript| #[trigger] longer.contains(x) <==> x == line
            || lines.contains(x) by {
            if longer.contains(x) {
                let k = choose|k: int| 0 <= k < longer.len() && longer[k] == x;
                if k == 0 {
                    assert(lines[0] == x);
                } else {
                    assert(more[k - 1] == x);
                    assert(more.contains(x));
                    if rest.contains(x) {
                        let m = choose|m: int| 0 <= m < rest.len() && rest[m] == x;
                        assert(lines[m + 1] == x);
                    }
                }
            }
            if x == line {
                assert(more.contains(x));
                let k = choose|k: int| 0 <= k < more.len() && more[k] == x;
                assert(longer[k + 1] == x);
            }
            if lines.contains(x) {
                let m = choose|m: int| 0 <= m < lines.len() && lines[m] == x;
                if m == 0 {
                    assert(longer[0] == x);
                } else {
                    assert(rest[m - 1] == x);
                    assert(rest.contains(x));
                    assert(more.contains(x));
                    let k = choose|k: int| 0 <= k < more.len() && more[k] == x;
                    assert(longer[k + 1] == x);
                }
            }
        }
        if in_spoken_order(lines) {
            assert forall|i: int, j: int| 0 <= i < j < rest.len() implies begin_of(
                #[trigger] rest[i],
            ) <= begin_of(#[trigger] rest[j]) by {
                assert(rest[i] == lines[i + 1] && rest[j] == lines[j + 1]);
            }
            assert forall|i: int, j: int| 0 <= i < j < longer.len() implies begin_of(
                #[trigger] longer[i],
            ) <= begin_of(#[trigger] longer[j]) by {
                assert(longer[j] == more[j - 1]);
                if i > 0 {
                    assert(longer[i] == more[i - 1]);
                } else {
                    assert(more.contains(more[j - 1]));
                    if rest.contains(more[j - 1]) {
                        let m = choose|m: int| 0 <= m < rest.len() && rest[m] == more[j - 1];
                        assert(lines[m + 1] == more[j - 1]);
                        assert(begin_of(lines[0]) <= begin_of(lines[m + 1]));
                    }
                }
            }
        }
    }
}

proof fn lemma_spoken_holds(lines: Seq<StoredTranscript>)
    ensures
        forall|x: StoredTranscript| #[trigger] spoken(lines).contains(x) <==> lines.contains(x),
        in_spoken_order(spoken(lines)),
        spoken(lines).len() == lines.len(),
    decreases lines.len(),
{
    if lines.len() > 0 {
        let rest = lines.drop_first();
        lemma_spoken_holds(rest);
        lemma_with_line_holds(spoken(rest), lines[0]);
        assert forall|x: StoredTranscript| #[trigger] spoken(lines).contains(x) <==> lines.contains(
            x,
        ) by {
            assert(spoken(lines).contains(x) <==> x == lines[0] || spoken(rest).contains(x));
            if rest.contains(x) {
                let m = choose|m: int| 0 <= m < rest.len() && rest[m] == x;
                assert(lines[m + 1] == x);
            }
            if lines.contains(x) {
                let m = choose|m: int| 0 <= m < lines.len() && lines[m] == x;
                if m > 0 {
                    assert(rest[m - 1] == x);
                }
            }
        }
    }
}

proof fn lemma_corrected_lines(stored: Seq<StoredLine>)
    ensures
        forall|i: int|
            0 <= i < stored.len() && (#[trigger] stored[i]).corrected ==> corrected_lines(
                stored,
            ).contains(stored[i].line),
        forall|x: StoredTranscript| #[trigger]
            corrected_lines(stored).contains(x) ==> exists|i: int|
                0 <= i < stored.len() && (#[trigger] stored[i]).corrected && stored[i].line == x,
    decreases stored.len(),
{
    if stored.len() > 0 {
        let tail = stored.drop_first();
        let rest = corrected_lines(tail);
        let all = corrected_lines(stored);
        lemma_corrected_lines(tail);
        let head: int = if stored[0].corrected {
            1
        } else {
            0
        };
        assert forall|i: int| 0 <= i < stored.len() && (#[trigger] stored[i]).corrected implies
            all.contains(stored[i].line) by {
            if i == 0 {
                assert(all[0] == stored[0].line);
            } else {
                assert(tail[i - 1] == stored[i]);
                assert(rest.contains(tail[i - 1].line));
                let k = choose|k: int| 0 <= k < rest.len() && rest[k] == stored[i].line;
                assert(all[k + head] == stored[i].line);
            }
        }
        assert forall|x: StoredTranscript| #[trigger] all.contains(x) implies exists|i: int|
            0 <= i < stored.len() && (#[trigger] stored[i]).corrected && stored[i].line == x by {
            let k = choose|k: int| 0 <= k < all.len() && all[k] == x;
            if stored[0].corrected && k == 0 {
                assert(stored[0].line == x);
            } else {
                assert(rest[k - head] == x);
                assert(rest.contains(x));
                let i = choose|i: int|
                    0 <= i < tail.len() && (#[trigger] tail[i]).corrected && tail[i].line == x;
                assert(stored[i + 1] == tail[i]);
            }
        }
    }
}

proof fn lemma_filling_lines(stored: Seq<StoredLine>, fresh: Seq<StoredTranscript>)
    ensures
        forall|i: int|
            0 <= i < fresh.len() && !is_corrected_over(stored, #[trigger] fresh[i])
                ==> filling_lines(stored, fresh).contains(fresh[i]),
        forall|x: StoredTranscript| #[trigger]
            filling_lines(stored, fresh).contains(x) ==> fresh.contains(x) && !is_corrected_over(
                stored,
                x,
            ),
    decreases fresh.len(),
{
    if fresh.len() > 0 {
        let tail = fresh.drop_first();
        let rest = filling_lines(stored, tail);
        let all = filling_lines(stored, fresh);
        lemma_filling_lines(stored, tail);
        let head: int = if is_corrected_over(stored, fresh[0]) {
            0
        } else {
            1
        };
        assert forall|i: int|
            0 <= i < fresh.len() && !is_corrected_over(stored, #[trigger] fresh[i]) implies
            all.contains(fresh[i]) by {
            if i == 0 {
                assert(all[0] == fresh[0]);
            } else {
                assert(tail[i - 1] == fresh[i]);
                assert(rest.contains(tail[i - 1]));
                let k = choose|k: int| 0 <= k < rest.len() && rest[k] == fresh[i];
                assert(all[k + head] == fresh[i]);
            }
        }
        assert forall|x: StoredTranscript| #[trigger] all.contains(x) implies fresh.contains(x)
            && !is_corrected_over(stored, x) by {
            let k = choose|k: int| 0 <= k < all.len() && all[k] == x;
            if head == 1 && k == 0 {
                assert(fresh[0] == x);
            } else {
                assert(rest[k - head] == x);
                assert(rest.contains(x));
                let m = choose|m: int| 0 <= m < tail.len() && tail[m] == x;
                assert(fresh[m + 1] == x);
            }
        }
    }
}

/// The person has the last word: every line the owner corrected is still there as they left
/// it, a new line is there exactly where none of these was spoken over it, and nothing else
/// is. The lines are in the order they were spoken in.
pub proof fn corrections_have_the_last_word(
    stored: Seq<StoredLine>,
    fresh: Seq<StoredTranscript>,
)
    ensures
        forall|i: int|
            0 <= i < stored.len() && (#[trigger] stored[i]).corrected ==> merged(
                stored,
                fresh,
            ).contains(stored[i].line),
        forall|i: int|
            0 <= i < fresh.len() && !is_corrected_over(stored, #[trigger] fresh[i]) ==> merged(
                stored,
                fresh,
            ).contains(fresh[i]),
        forall|x: StoredTranscript| #[trigger]
            merged(stored, fresh).contains(x) ==> (fresh.contains(x) && !is_corrected_over(
                stored,
                x,
            )) || exists|i: int|
                0 <= i < stored.len() && (#[trigger] stored[i]).corrected && stored[i].line == x,
        in_spoken_order(merged(stored, fresh)),
{
    let kept = corrected_lines(stored);
    let filling = filling_lines(stored, fresh);
    let both = kept + filling;
    lemma_corrected_lines(stored);
    lemma_filling_lines(stored, fresh);
    lemma_spoken_holds(both);
    assert forall|x: StoredTranscript| kept.contains(x) || filling.contains(x) implies
        #[trigger] both.contains(x) by {
        if kept.contains(x) {
            let k = choose|k: int| 0 <= k < kept.len() && kept[k] == x;
            assert(both[k] == x);
        } else {
            let k = choose|k: int| 0 <= k < filling.len() && filling[k] == x;
            assert(both[k + kept.len()] == x);
        }
    }
    assert forall|x: StoredTranscript| #[trigger] both.contains(x) implies kept.contains(x)
        || filling.contains(x) by {
        let k = choose|k: int| 0 <= k < both.len() && both[k] == x;
        if k < kept.len() {
            assert(kept[k] == x);
        } else {
            assert(filling[k - kept.len()] == x);
        }
    }
    assert forall|i: int| 0 <= i < stored.len() && (#[trigger] stored[i]).corrected implies merged(
        stored,
        fresh,
    ).contains(stored[i].line) by {
        assert(kept.contains(stored[i].line));
        assert(both.contains(stored[i].line));
    }
    assert forall|i: int| 0 <= i < fresh.len() && !is_corrected_over(stored, #[trigger] fresh[i])
        implies merged(stored, fresh).contains(fresh[i]) by {
        assert(filling.contains(fresh[i]));
        assert(both.contains(fresh[i]));
    }
}

/// A line was corrected by the owner.
pub open spec fn is_corrected_line(stored: Seq<StoredLine>, line: StoredTranscript) -> bool {
    exists|i: int| 0 <= i < stored.len() && (#[trigger] stored[i]).corrected && stored[i].line == line
}

/// Recognition fills in around the corrections, in times: a new line that begins before a
/// corrected one ends and ends after that one begins is left out, whether it lies inside the
/// corrected one, around it, or only reaches into it. So no new line of the result shares a
/// moment with a corrected one. A new line that keeps clear of all of them is there.
pub proof fn new_lines_keep_clear_of_corrections(
    stored: Seq<StoredLine>,
    fresh: Seq<StoredTranscript>,
    line: StoredTranscript,
    index: int,
)
    requires
        0 <= index < stored.len(),
        stored[index].corrected,
    ensures
        ({
            let kept = stored[index].line;
            match (
                kept.audio_start_time,
                kept.audio_end_time,
                line.audio_start_time,
                line.audio_end_time,
            ) {
                (Some(a), Some(b), Some(c), Some(d)) => c < b && a < d && merged(
                    stored,
                    fresh,
                ).contains(line) ==> is_corrected_line(stored, line),
                _ => true,
            }
        }),
        merged(stored, fresh).contains(stored[index].line),
{
    corrections_have_the_last_word(stored, fresh);
    if merged(stored, fresh).contains(line) && !is_corrected_line(stored, line) {
        assert(!is_corrected_over(stored, line));
        assert(stored[index].corrected && !overlap(stored[index].line, line));
    }
    assert(merged(stored, fresh).contains(stored[index].line));
}

/// What keeps clear of every correction is not lost, and nothing is made up: a new line is in
/// the result where each corrected line ends no later than it begins, or begins no earlier than
/// it ends, or one of the two has no times; and everything in the result is a corrected line or
/// a new one.
pub proof fn clear_lines_are_filled_in(
    stored: Seq<StoredLine>,
    fresh: Seq<StoredTranscript>,
    line: StoredTranscript,
)
    ensures
        fresh.contains(line) && (forall|i: int|
            0 <= i < stored.len() && (#[trigger] stored[i]).corrected ==> match (
                stored[i].line.audio_start_time,
                stored[i].line.audio_end_time,
                line.audio_start_time,
                line.audio_end_time,
            ) {
                (Some(a), Some(b), Some(c), Some(d)) => b <= c || d <= a,
                _ => true,
            }) ==> merged(stored, fresh).contains(line),
        merged(stored, fresh).contains(line) ==> fresh.contains(line) || is_corrected_line(
            stored,
            line,
        ),
{
    corrections_have_the_last_word(stored, fresh);
    if fresh.contains(line) {
        let k = choose|k: int| 0 <= k < fresh.len() && fresh[k] == line;
        if forall|i: int|
            0 <= i < stored.len() && (#[trigger] stored[i]).corrected ==> match (
                stored[i].line.audio_start_time,
                stored[i].line.audio_end_time,
                line.audio_start_time,
                line.audio_end_time,
            ) {
                (Some(a), Some(b), Some(c), Some(d)) => b <= c || d <= a,
                _ => true,
            } {
            assert(!is_corrected_over(stored, fresh[k])) by {
                if is_corrected_over(stored, line) {
                    let i = choose|i: int|
                        0 <= i < stored.len() && (#[trigger] stored[i]).corrected && overlap(
                            stored[i].line,
                            line,
                        );
                    assert(stored[i].corrected);
                }
            }
        }
    }
}

proof fn lemma_with_line_adds_one(lines: Seq<StoredTranscript>, line: StoredTranscript)
    ensures
        with_line(lines, line).to_multiset() == lines.to_multiset().insert(line),
    decreases lines.len(),
{
    broadcast use vstd::seq_lib::group_to_multiset_ensures;

    if lines.len() == 0 || begin_of(line) <= begin_of(lines[0]) {
        assert(seq![line] + lines =~= lines.insert(0, line));
        vstd::seq_lib::to_multiset_insert(lines, 0, line);
    } else {
        let rest = lines.drop_first();
        lemma_with_line_adds_one(rest, line);
        let longer = with_line(rest, line);
        assert(seq![lines[0]] + longer =~= longer.insert(0, lines[0]));
        assert(lines =~= rest.insert(0, lines[0]));
        vstd::seq_lib::to_multiset_insert(longer, 0, lines[0]);
        vstd::seq_lib::to_multiset_insert(rest, 0, lines[0]);
        assert(rest.to_multiset().insert(line).insert(lines[0]) =~= rest.to_multiset().insert(
            lines[0],
        ).insert(line));
    }
}

/// Each line comes once: the result holds the corrected lines and the new ones that were filled
/// in, each as often as it was there, in the order of when they begin. A line without its times
/// comes first.
pub proof fn lines_come_in_the_order_they_were_spoken(lines: Seq<StoredTranscript>)
    ensures
        spoken(lines).to_multiset() == lines.to_multiset(),
        forall|i: int, j: int|
            0 <= i < j < spoken(lines).len() ==> match (
                (#[trigger] spoken(lines)[i]).audio_start_time,
                (#[trigger] spoken(lines)[j]).audio_start_time,
            ) {
                (Some(before), Some(after)) => before <= after,
                (Some(before), None) => before == 0,
                (None, _) => true,
            },
    decreases lines.len(),
{
    lemma_spoken_holds(lines);
    if lines.len() > 0 {
        let rest = lines.drop_first();
        lines_come_in_the_order_they_were_spoken(rest);
        lemma_with_line_adds_one(spoken(rest), lines[0]);
        assert(lines =~= rest.insert(0, lines[0]));
        vstd::seq_lib::to_multiset_insert(rest, 0, lines[0]);
    } else {
        assert(lines =~= Seq::<StoredTranscript>::empty());
    }
}

} // verus!
