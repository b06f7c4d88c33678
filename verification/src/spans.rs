//! Runs of marked windows, as stretches of time.

use vstd::prelude::*;

verus! {

/// Windows `from` up to `to` are marked, and neither neighbour is.
pub open spec fn marked_run(marks: Seq<bool>, from: int, to: int) -> bool {
    &&& 0 <= from < to <= marks.len()
    &&& forall|i: int| from <= i < to ==> #[trigger] marks[i]
    &&& from == 0 || !marks[from - 1]
    &&& to == marks.len() || !marks[to]
}

/// A marked run that lasts at least `shortest`.
pub open spec fn long_run(marks: Seq<bool>, window: int, shortest: int, from: int, to: int) -> bool {
    marked_run(marks, from, to) && (to - from) * window >= shortest
}

/// A run of windows as a stretch of time.
pub open spec fn stretch(window: int, from: int, to: int) -> (u64, u64) {
    ((from * window) as u64, (to * window) as u64)
}

/// A stretch of time is a long run that ends at or before window `end`.
pub open spec fn is_long_run(
    span: (u64, u64),
    marks: Seq<bool>,
    window: int,
    shortest: int,
    end: int,
) -> bool {
    exists|from: int, to: int| #[trigger]
        long_run(marks, window, shortest, from, to) && to <= end && span == stretch(
            window,
            from,
            to,
        )
}

/// The stretches are exactly the long runs, in order and apart from each other.
pub open spec fn are_long_runs(
    spans: Seq<(u64, u64)>,
    marks: Seq<bool>,
    window: int,
    shortest: int,
) -> bool {
    &&& forall|k: int|
        0 <= k < spans.len() ==> is_long_run(
            #[trigger] spans[k],
            marks,
            window,
            shortest,
            marks.len() as int,
        )
    &&& forall|from: int, to: int| #[trigger]
        long_run(marks, window, shortest, from, to) ==> spans.contains(stretch(window, from, to))
    &&& forall|j: int, k: int| 0 <= j < k < spans.len() ==> (#[trigger] spans[j]).1 < (
    #[trigger] spans[k]).0
}

/// Whether a place in the list of marks lies in one of its long runs.
pub open spec fn in_long_run(marks: Seq<bool>, window: int, shortest: int, index: int) -> bool {
    exists|from: int, to: int| #[trigger]
        long_run(marks, window, shortest, from, to) && from <= index < to
}

/// The runs of marked windows that last at least `shortest`, as stretches of time.
pub fn long_runs(marks: &Vec<bool>, window: u64, shortest: u64) -> (spans: Vec<(u64, u64)>)
    requires
        window > 0,
        marks@.len() * window <= u64::MAX,
    ensures
        are_long_runs(spans@, marks@, window as int, shortest as int),
{
    let mut spans: Vec<(u64, u64)> = Vec::new();
    let mut index: usize = 0;
    let ghost w = window as int;
    let ghost least = shortest as int;
    // Every run that ends before `index` is settled.
    while index < marks.len()
        invariant
            window > 0,
            w == window,
            least == shortest,
            marks@.len() * window <= u64::MAX,
            index <= marks@.len(),
            index == 0 || index == marks@.len() || !marks@[index as int] || !marks@[index - 1],
            forall|k: int|
                0 <= k < spans@.len() ==> is_long_run(
                    #[trigger] spans@[k],
                    marks@,
                    w,
                    least,
                    index as int,
                ),
            forall|from: int, to: int| #[trigger]
                long_run(marks@, w, least, from, to) && from < index ==> to <= index
                    && spans@.contains(stretch(w, from, to)),
            forall|j: int, k: int|
                0 <= j < k < spans@.len() ==> (#[trigger] spans@[j]).1 < (#[trigger] spans@[k]).0,
            spans@.len() > 0 ==> spans@.last().1 <= index * w && (index < marks@.len()
                && marks@[index as int] ==> spans@.last().1 < index * w),
        decreases marks@.len() - index,
    {
        if !marks[index] {
            assert forall|from: int, to: int| #[trigger]
                long_run(marks@, w, least, from, to) && from < index + 1 implies to <= index + 1
                && spans@.contains(stretch(w, from, to)) by {
                assert(marks@[from]);
            }
            assert(index * w < (index + 1) * w) by (nonlinear_arith)
                requires
                    w > 0,
            ;
            index += 1;
        } else {
            let from: usize = index;
            let mut to: usize = index + 1;
            while to < marks.len() && marks[to]
                invariant
                    from < to <= marks@.len(),
                    forall|i: int| from <= i < to ==> #[trigger] marks@[i],
                decreases marks@.len() - to,
            {
                to += 1;
            }
            assert(marked_run(marks@, from as int, to as int));
            assert(0 <= from * w && from * w < to * w && to * w <= marks@.len() * w && (to - from)
                * w <= marks@.len() * w) by (nonlinear_arith)
                requires
                    w > 0,
                    0 <= from < to <= marks@.len(),
            ;
            let ghost before = spans@;
            assert forall|a: int, b: int| #[trigger]
                long_run(marks@, w, least, a, b) && a < to && a >= from implies a == from && b
                == to by {
                if a > from {
                    assert(marks@[a - 1]);
                }
                if b < to {
                    assert(marks@[b]);
                }
                if b > to {
                    assert(marks@[to as int]);
                }
            }
            if (to - from) as u64 * window >= shortest {
                spans.push((from as u64 * window, to as u64 * window));
                assert(spans@.last() == stretch(w, from as int, to as int));
                assert(long_run(marks@, w, least, from as int, to as int));
                assert forall|a: int, b: int| #[trigger]
                    long_run(marks@, w, least, a, b) && a < to implies b <= to && spans@.contains(
                    stretch(w, a, b),
                ) by {
                    if a < from {
                        assert(before.contains(stretch(w, a, b)));
                        let k = choose|k: int|
                            0 <= k < before.len() && before[k] == stretch(w, a, b);
                        assert(spans@[k] == stretch(w, a, b));
                    } else {
                        assert(spans@[spans@.len() - 1] == stretch(w, a, b));
                    }
                }
                assert forall|j: int, k: int| 0 <= j < k < spans@.len() implies (#[trigger] spans@[j]).1
                    < (#[trigger] spans@[k]).0 by {
                    if k == spans@.len() - 1 && j < before.len() - 1 {
                        assert(before[j].1 < before[before.len() - 1].0);
                        assert(is_long_run(before[before.len() - 1], marks@, w, least, from as int));
                        let (a, b) = choose|a: int, b: int| #[trigger]
                            long_run(marks@, w, least, a, b) && b <= from && before[before.len() - 1]
                                == stretch(w, a, b);
                        assert(0 <= a * w && a * w < b * w && b * w <= from * w)
                            by (nonlinear_arith)
                            requires
                                w > 0,
                                0 <= a < b <= from,
                        ;
                    }
                }
            }
            assert(to < marks@.len() ==> !marks@[to as int]);
            index = to;
        }
    }
    assert forall|from: int, to: int| #[trigger]
        long_run(marks@, w, least, from, to) implies spans@.contains(stretch(w, from, to)) by {
        assert(from < index);
    }
    spans
}

/// Every stretch ends after it begins, and before the next one begins.
pub proof fn lemma_runs_are_ordered(
    spans: Seq<(u64, u64)>,
    marks: Seq<bool>,
    window: int,
    shortest: int,
)
    requires
        are_long_runs(spans, marks, window, shortest),
        window > 0,
        marks.len() * window <= u64::MAX,
    ensures
        forall|k: int| 0 <= k < spans.len() ==> (#[trigger] spans[k]).0 < spans[k].1,
        forall|j: int, k: int|
            0 <= j < k < spans.len() ==> (#[trigger] spans[j]).1 <= (#[trigger] spans[k]).0,
{
    assert forall|k: int| 0 <= k < spans.len() implies (#[trigger] spans[k]).0 < spans[k].1 by {
        assert(is_long_run(spans[k], marks, window, shortest, marks.len() as int));
        let (from, to) = choose|from: int, to: int| #[trigger]
            long_run(marks, window, shortest, from, to) && to <= marks.len() && spans[k] == stretch(
                window,
                from,
                to,
            );
        assert(0 <= from * window && from * window < to * window && to * window <= marks.len()
            * window) by (nonlinear_arith)
            requires
                window > 0,
                0 <= from < to <= marks.len(),
        ;
    }
}

/// A stretch is made of marked windows only and lasts long enough: it begins with one, ends
/// behind one, and every window in it is marked.
pub proof fn stretch_is_made_of_marks(
    spans: Seq<(u64, u64)>,
    marks: Seq<bool>,
    window: int,
    shortest: int,
    k: int,
    index: int,
)
    requires
        window > 0,
        are_long_runs(spans, marks, window, shortest),
        0 <= k < spans.len(),
        marks.len() * window <= u64::MAX,
    ensures
        spans[k].1 - spans[k].0 >= shortest,
        spans[k].0 < spans[k].1 <= marks.len() * window,
        spans[k].0 as int % window == 0,
        spans[k].1 as int % window == 0,
        spans[k].0 <= index * window < spans[k].1 ==> 0 <= index < marks.len() && marks[index],
{
    assert(is_long_run(spans[k], marks, window, shortest, marks.len() as int));
    let (from, to) = choose|from: int, to: int| #[trigger]
        long_run(marks, window, shortest, from, to) && to <= marks.len() && spans[k] == stretch(
            window,
            from,
            to,
        );
    assert(0 <= from * window < to * window <= marks.len() * window) by (nonlinear_arith)
        requires
            0 <= from < to <= marks.len(),
            window > 0,
    ;
    assert((to - from) * window == to * window - from * window) by (nonlinear_arith);
    vstd::arithmetic::div_mod::lemma_mod_multiples_basic(from, window);
    vstd::arithmetic::div_mod::lemma_mod_multiples_basic(to, window);
    if spans[k].0 <= index * window < spans[k].1 {
        assert(from <= index < to) by (nonlinear_arith)
            requires
                from * window <= index * window < to * window,
                window > 0,
        ;
        assert(marks[index]);
    }
}

/// Nothing long enough is missed: where windows are marked from one place to another, and they
/// last long enough, every one of them lies in a stretch.
pub proof fn long_marks_are_in_a_stretch(
    spans: Seq<(u64, u64)>,
    marks: Seq<bool>,
    window: int,
    shortest: int,
    from: int,
    to: int,
    index: int,
)
    requires
        window > 0,
        are_long_runs(spans, marks, window, shortest),
        0 <= from <= index < to <= marks.len(),
        forall|i: int| from <= i < to ==> #[trigger] marks[i],
        (to - from) * window >= shortest,
        marks.len() * window <= u64::MAX,
    ensures
        exists|k: int|
            0 <= k < spans.len() && (#[trigger] spans[k]).0 <= index * window && (index + 1) * window
                <= spans[k].1,
{
    let first = run_start(marks, from);
    let last = run_end(marks, to);
    lemma_run_start(marks, from);
    lemma_run_end(marks, to);
    assert(marked_run(marks, first, last)) by {
        assert forall|i: int| first <= i < last implies #[trigger] marks[i] by {
            if i < from {
            } else if i < to {
            } else {
            }
        }
    }
    assert((last - first) * window >= (to - from) * window) by (nonlinear_arith)
        requires
            last - first >= to - from,
            window > 0,
    ;
    assert(long_run(marks, window, shortest, first, last));
    assert(spans.contains(stretch(window, first, last)));
    let k = choose|k: int| 0 <= k < spans.len() && spans[k] == stretch(window, first, last);
    assert(0 <= first * window <= index * window && (index + 1) * window <= last * window <= marks.len()
        * window) by (nonlinear_arith)
        requires
            0 <= first <= index,
            index + 1 <= last <= marks.len(),
            window > 0,
    ;
    assert(spans[k].0 <= index * window && (index + 1) * window <= spans[k].1);
}

spec fn run_start(marks: Seq<bool>, from: int) -> int
    decreases from,
{
    if from <= 0 || !marks[from - 1] {
        from
    } else {
        run_start(marks, from - 1)
    }
}

spec fn run_end(marks: Seq<bool>, to: int) -> int
    decreases marks.len() - to,
{
    if to >= marks.len() || !marks[to] {
        to
    } else {
        run_end(marks, to + 1)
    }
}

proof fn lemma_run_start(marks: Seq<bool>, from: int)
    requires
        0 <= from <= marks.len(),
    ensures
        0 <= run_start(marks, from) <= from,
        forall|i: int| run_start(marks, from) <= i < from ==> #[trigger] marks[i],
        run_start(marks, from) == 0 || !marks[run_start(marks, from) - 1],
    decreases from,
{
    if !(from <= 0 || !marks[from - 1]) {
        lemma_run_start(marks, from - 1);
    }
}

proof fn lemma_run_end(marks: Seq<bool>, to: int)
    requires
        0 <= to <= marks.len(),
    ensures
        to <= run_end(marks, to) <= marks.len(),
        forall|i: int| to <= i < run_end(marks, to) ==> #[trigger] marks[i],
        run_end(marks, to) == marks.len() || !marks[run_end(marks, to)],
    decreases marks.len() - to,
{
    if !(to >= marks.len() || !marks[to]) {
        lemma_run_end(marks, to + 1);
    }
}

} // verus!
