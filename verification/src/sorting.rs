//! Names in order.

use crate::paths::{components, components_of, same_path};
use crate::text::{chars_of, spelled, text_of, texts};
use vstd::prelude::*;

verus! {

/// One text stands before another: where they first differ it has the smaller character,
/// or it ends there.
pub open spec fn text_before(a: Seq<char>, b: Seq<char>) -> bool
    decreases b.len(),
{
    if b.len() == 0 {
        false
    } else if a.len() == 0 {
        true
    } else if a[0] != b[0] {
        a[0] < b[0]
    } else {
        text_before(a.drop_first(), b.drop_first())
    }
}

/// In order, the same text more than once allowed.
pub open spec fn in_text_order(list: Seq<Seq<char>>) -> bool {
    forall|i: int, j: int|
        0 <= i < j < list.len() ==> !text_before(#[trigger] list[j], #[trigger] list[i])
}

/// Of two texts one stands before the other, unless they are the same.
pub proof fn lemma_text_order_is_total(a: Seq<char>, b: Seq<char>)
    ensures
        text_before(a, b) || text_before(b, a) || a == b,
        !(text_before(a, b) && text_before(b, a)),
    decreases a.len(),
{
    if a.len() > 0 && b.len() > 0 && a[0] == b[0] {
        lemma_text_order_is_total(a.drop_first(), b.drop_first());
        if a.drop_first() == b.drop_first() {
            assert(a =~= seq![a[0]] + a.drop_first());
            assert(b =~= seq![b[0]] + b.drop_first());
        }
    } else if a.len() == 0 && b.len() == 0 {
        assert(a =~= b);
    }
}

/// What does not stand before a text, and what that does not stand before, are in order.
pub proof fn lemma_text_order_chains(a: Seq<char>, b: Seq<char>, c: Seq<char>)
    requires
        !text_before(b, a),
        !text_before(c, b),
    ensures
        !text_before(c, a),
    decreases a.len(),
{
    if a.len() > 0 && c.len() > 0 && b.len() > 0 {
        if a[0] == b[0] && b[0] == c[0] {
            lemma_text_order_chains(a.drop_first(), b.drop_first(), c.drop_first());
        }
    }
}

pub fn stands_before(a: &str, b: &str) -> (before: bool)
    ensures
        before == text_before(a@, b@),
{
    let left = chars_of(a);
    let right = chars_of(b);
    let mut index: usize = 0;
    assert(a@.skip(0) =~= a@ && b@.skip(0) =~= b@);
    while index < left.len() && index < right.len() && left[index] == right[index]
        invariant
            index <= left@.len(),
            index <= right@.len(),
            left@ == a@,
            right@ == b@,
            text_before(a@, b@) == text_before(a@.skip(index as int), b@.skip(index as int)),
        decreases left@.len() - index,
    {
        assert(a@.skip(index as int).drop_first() =~= a@.skip(index + 1));
        assert(b@.skip(index as int).drop_first() =~= b@.skip(index + 1));
        index += 1;
    }
    if index >= right.len() {
        false
    } else if index >= left.len() {
        true
    } else {
        left[index] < right[index]
    }
}

/// The texts in order, none lost and none added.
pub fn sorted_texts(list: Vec<String>) -> (sorted: Vec<String>)
    ensures
        in_text_order(texts(sorted@)),
        sorted@.to_multiset() == list@.to_multiset(),
        sorted@.len() == list@.len(),
{
    broadcast use vstd::seq_lib::group_to_multiset_ensures;

    let ghost given = list@;
    let mut rest = list;
    let mut sorted: Vec<String> = Vec::new();
    while rest.len() > 0
        invariant
            in_text_order(texts(sorted@)),
            sorted@.to_multiset().add(rest@.to_multiset()) =~= given.to_multiset(),
            sorted@.len() + rest@.len() == given.len(),
        decreases rest@.len(),
    {
        let ghost had = rest@;
        let ghost before = sorted@;
        let next = rest.remove(0);
        proof {
            assert(had =~= rest@.insert(0, next));
            vstd::seq_lib::to_multiset_insert(rest@, 0, next);
        }
        let all: usize = sorted.len();
        let mut place: usize = all;
        while place > 0 && stands_before(next.as_str(), sorted[place - 1].as_str())
            invariant
                place <= all,
                all == sorted@.len(),
                sorted@ == before,
                in_text_order(texts(before)),
                forall|k: int|
                    place <= k < before.len() ==> text_before(next@, (#[trigger] before[k])@),
            decreases place,
        {
            place -= 1;
        }
        proof {
            let ordered = texts(before);
            assert forall|k: int| 0 <= k < place implies !text_before(
                next@,
                (#[trigger] before[k])@,
            ) by {
                assert(ordered[k] == before[k]@ && ordered[place - 1] == before[place - 1]@);
                if k < place - 1 {
                    assert(!text_before(ordered[place - 1], ordered[k]));
                    lemma_text_order_chains(before[k]@, before[place - 1]@, next@);
                }
            }
        }
        let ghost item = next;
        sorted.insert(place, next);
        proof {
            let after = sorted@;
            assert(after =~= before.insert(place as int, item));
            vstd::seq_lib::to_multiset_insert(before, place as int, item);
            let ordered = texts(after);
            let was = texts(before);
            assert forall|i: int, j: int| 0 <= i < j < ordered.len() implies !text_before(
                #[trigger] ordered[j],
                #[trigger] ordered[i],
            ) by {
                if j == place {
                    assert(ordered[i] == before[i]@);
                    assert(ordered[j] == item@);
                } else if i == place {
                    assert(ordered[j] == before[j - 1]@);
                    assert(ordered[i] == item@);
                    assert(text_before(item@, before[j - 1]@));
                    lemma_text_order_is_total(item@, before[j - 1]@);
                } else {
                    let from = if i < place {
                        i
                    } else {
                        i - 1
                    };
                    let to = if j < place {
                        j
                    } else {
                        j - 1
                    };
                    assert(ordered[i] == was[from] && ordered[j] == was[to]);
                }
            }
        }
    }
    assert(rest@ =~= Seq::<String>::empty());
    assert(sorted@.to_multiset() =~= given.to_multiset());
    sorted
}

/// One list of names stands before another: where they first differ its name does, or it
/// ends there.
pub open spec fn names_before(a: Seq<Seq<char>>, b: Seq<Seq<char>>) -> bool
    decreases b.len(),
{
    if b.len() == 0 {
        false
    } else if a.len() == 0 {
        true
    } else if a[0] != b[0] {
        text_before(a[0], b[0])
    } else {
        names_before(a.drop_first(), b.drop_first())
    }
}

/// One path stands before another, name by name from the root on.
pub open spec fn path_before(a: Seq<char>, b: Seq<char>) -> bool {
    names_before(components(a), components(b))
}

proof fn lemma_text_before_passes_on(a: Seq<char>, b: Seq<char>, c: Seq<char>)
    requires
        text_before(a, b),
        text_before(b, c),
    ensures
        text_before(a, c),
    decreases a.len(),
{
    if a.len() > 0 && b.len() > 0 && c.len() > 0 && a[0] == b[0] && b[0] == c[0] {
        lemma_text_before_passes_on(a.drop_first(), b.drop_first(), c.drop_first());
    }
}

proof fn lemma_names_before_passes_on(a: Seq<Seq<char>>, b: Seq<Seq<char>>, c: Seq<Seq<char>>)
    requires
        names_before(a, b),
        names_before(b, c),
    ensures
        names_before(a, c),
    decreases a.len(),
{
    if a.len() > 0 && b.len() > 0 && c.len() > 0 {
        if a[0] == b[0] && b[0] == c[0] {
            lemma_names_before_passes_on(a.drop_first(), b.drop_first(), c.drop_first());
        } else if a[0] != b[0] && b[0] != c[0] {
            lemma_text_before_passes_on(a[0], b[0], c[0]);
            lemma_text_order_is_total(a[0], c[0]);
            lemma_text_order_is_total(a[0], b[0]);
        }
    }
}

/// No two places stand before each other, and none before itself.
pub proof fn lemma_names_order_is_strict(a: Seq<Seq<char>>, b: Seq<Seq<char>>)
    ensures
        !(names_before(a, b) && names_before(b, a)),
        a == b ==> !names_before(a, b),
    decreases a.len(),
{
    if a.len() > 0 && b.len() > 0 {
        if a[0] == b[0] {
            lemma_names_order_is_strict(a.drop_first(), b.drop_first());
        } else {
            lemma_text_order_is_total(a[0], b[0]);
        }
    }
}

proof fn lemma_names_order_is_total(a: Seq<Seq<char>>, b: Seq<Seq<char>>)
    ensures
        names_before(a, b) || names_before(b, a) || a == b,
    decreases a.len(),
{
    if a.len() > 0 && b.len() > 0 {
        if a[0] == b[0] {
            lemma_names_order_is_total(a.drop_first(), b.drop_first());
            if a.drop_first() == b.drop_first() {
                assert(a =~= seq![a[0]] + a.drop_first());
                assert(b =~= seq![b[0]] + b.drop_first());
            }
        } else {
            lemma_text_order_is_total(a[0], b[0]);
        }
    } else if a.len() == 0 && b.len() == 0 {
        assert(a =~= b);
    }
}

fn path_stands_before(a: &str, b: &str) -> (before: bool)
    ensures
        before == path_before(a@, b@),
{
    let left = components_of(&chars_of(a));
    let right = components_of(&chars_of(b));
    let ghost x = components(a@);
    let ghost y = components(b@);
    assert(x.len() == left@.len() && y.len() == right@.len());
    let mut index: usize = 0;
    assert(x.skip(0) =~= x && y.skip(0) =~= y);
    while index < left.len() && index < right.len()
        invariant
            index <= left@.len(),
            index <= right@.len(),
            x == spelled(left@),
            y == spelled(right@),
            names_before(x, y) == names_before(x.skip(index as int), y.skip(index as int)),
            x == components(a@),
            y == components(b@),
        decreases left@.len() - index,
    {
        let here = text_of(&left[index]);
        let there = text_of(&right[index]);
        assert(x[index as int] == here@ && y[index as int] == there@);
        assert(x.skip(index as int).drop_first() =~= x.skip(index + 1));
        assert(y.skip(index as int).drop_first() =~= y.skip(index + 1));
        let first = stands_before(here.as_str(), there.as_str());
        let second = stands_before(there.as_str(), here.as_str());
        proof {
            lemma_text_order_is_total(here@, there@);
        }
        if first || second {
            return first;
        }
        index += 1;
    }
    index < right.len()
}

/// In order, no place more than once.
pub open spec fn in_path_order(list: Seq<String>) -> bool {
    forall|i: int, j: int|
        0 <= i < j < list.len() ==> path_before((#[trigger] list[i])@, (#[trigger] list[j])@)
}

/// One of the paths names this place.
pub open spec fn names_place(list: Seq<String>, path: Seq<char>) -> bool {
    exists|i: int| 0 <= i < list.len() && components((#[trigger] list[i])@) == components(path)
}

/// The paths in order, each place once.
pub fn sorted_paths(list: Vec<String>) -> (sorted: Vec<String>)
    ensures
        in_path_order(sorted@),
        forall|i: int| 0 <= i < sorted@.len() ==> list@.contains(#[trigger] sorted@[i]),
        forall|i: int| 0 <= i < list@.len() ==> names_place(sorted@, (#[trigger] list@[i])@),
{
    let ghost given = list@;
    let mut rest = list;
    let mut sorted: Vec<String> = Vec::new();
    let ghost mut done: int = 0;
    assert(given.skip(0) =~= given);
    while rest.len() > 0
        invariant
            0 <= done <= given.len(),
            rest@ == given.skip(done),
            in_path_order(sorted@),
            forall|i: int| 0 <= i < sorted@.len() ==> given.contains(#[trigger] sorted@[i]),
            forall|i: int| 0 <= i < done ==> names_place(sorted@, (#[trigger] given[i])@),
        decreases rest@.len(),
    {
        let ghost before = sorted@;
        let next = rest.remove(0);
        assert(next == given[done]);
        assert(rest@ =~= given.skip(done + 1));
        let mut place: usize = sorted.len();
        while place > 0 && path_stands_before(next.as_str(), sorted[place - 1].as_str())
            invariant
                place <= before.len(),
                sorted@ == before,
                forall|k: int|
                    place <= k < before.len() ==> path_before(next@, (#[trigger] before[k])@),
            decreases place,
        {
            place -= 1;
        }
        let known = place > 0 && same_path(next.as_str(), sorted[place - 1].as_str());
        if known {
            assert(names_place(sorted@, given[done]@)) by {
                assert(components(sorted@[place - 1]@) == components(given[done]@));
            }
        } else {
            proof {
                assert forall|k: int| 0 <= k < place implies path_before(
                    (#[trigger] before[k])@,
                    next@,
                ) by {
                    lemma_names_order_is_total(
                        components(before[place - 1]@),
                        components(next@),
                    );
                    if k < place - 1 {
                        assert(path_before(before[k]@, before[place - 1]@));
                        lemma_names_before_passes_on(
                            components(before[k]@),
                            components(before[place - 1]@),
                            components(next@),
                        );
                    }
                }
            }
            let ghost item = next;
            sorted.insert(place, next);
            proof {
                let after = sorted@;
                assert(after =~= before.insert(place as int, item));
                assert(after[place as int] == item);
                assert forall|i: int, j: int| 0 <= i < j < after.len() implies path_before(
                    (#[trigger] after[i])@,
                    (#[trigger] after[j])@,
                ) by {
                    let from = if i <= place {
                        i
                    } else {
                        i - 1
                    };
                    let to = if j <= place {
                        j
                    } else {
                        j - 1
                    };
                    if i != place {
                        assert(after[i] == before[from]);
                    }
                    if j != place {
                        assert(after[j] == before[to]);
                    }
                }
                assert forall|i: int| 0 <= i < done implies names_place(
                    after,
                    (#[trigger] given[i])@,
                ) by {
                    let k = choose|k: int|
                        0 <= k < before.len() && components((#[trigger] before[k])@) == components(
                            given[i]@,
                        );
                    let at = if k < place {
                        k
                    } else {
                        k + 1
                    };
                    assert(after[at] == before[k]);
                }
                assert(components(after[place as int]@) == components(given[done]@));
                assert forall|i: int| 0 <= i < after.len() implies given.contains(
                    #[trigger] after[i],
                ) by {
                    if i < place {
                        assert(after[i] == before[i]);
                    } else if i > place {
                        assert(after[i] == before[i - 1]);
                    } else {
                        assert(given[done] == after[i]);
                    }
                }
            }
        }
        proof {
            done = done + 1;
        }
    }
    sorted
}

/// Two texts are alike up to place `at`, and there the first one has the smaller character or
/// is at its end while the second is not.
pub open spec fn parts_at(a: Seq<char>, b: Seq<char>, at: int) -> bool {
    &&& 0 <= at <= a.len() && at < b.len()
    &&& forall|i: int| 0 <= i < at ==> #[trigger] a[i] == b[i]
    &&& at == a.len() || a[at] < b[at]
}

/// One text stands before another exactly where their first difference says so.
pub proof fn first_difference_decides(a: Seq<char>, b: Seq<char>)
    ensures
        text_before(a, b) <==> exists|at: int| #[trigger] parts_at(a, b, at),
    decreases b.len(),
{
    if b.len() == 0 {
    } else if a.len() == 0 {
        assert(parts_at(a, b, 0));
    } else if a[0] != b[0] {
        if a[0] < b[0] {
            assert(parts_at(a, b, 0));
        } else {
            assert forall|at: int| !#[trigger] parts_at(a, b, at) by {
                if at > 0 && parts_at(a, b, at) {
                    assert(a[0] == b[0]);
                }
            }
        }
    } else {
        let left = a.drop_first();
        let right = b.drop_first();
        first_difference_decides(left, right);
        if text_before(left, right) {
            let at = choose|at: int| #[trigger] parts_at(left, right, at);
            assert forall|i: int| 0 <= i < at + 1 implies #[trigger] a[i] == b[i] by {
                if i > 0 {
                    assert(left[i - 1] == right[i - 1]);
                }
            }
            assert(parts_at(a, b, at + 1));
        }
        if exists|at: int| #[trigger] parts_at(a, b, at) {
            let at = choose|at: int| #[trigger] parts_at(a, b, at);
            assert forall|i: int| 0 <= i < at - 1 implies #[trigger] left[i] == right[i] by {
                assert(a[i + 1] == b[i + 1]);
            }
            assert(parts_at(left, right, at - 1));
        }
    }
}

/// Two lists of names are alike up to place `at`, and there the first one has the name that
/// stands before the other's, or is at its end while the second is not.
pub open spec fn names_part_at(a: Seq<Seq<char>>, b: Seq<Seq<char>>, at: int) -> bool {
    &&& 0 <= at <= a.len() && at < b.len()
    &&& forall|i: int| 0 <= i < at ==> #[trigger] a[i] == b[i]
    &&& at == a.len() || text_before(a[at], b[at])
}

/// One path stands before another exactly where their first name that differs says so: what
/// lies in a folder stands behind the folder itself.
pub proof fn first_name_that_differs_decides(a: Seq<Seq<char>>, b: Seq<Seq<char>>)
    ensures
        names_before(a, b) <==> exists|at: int| #[trigger] names_part_at(a, b, at),
    decreases b.len(),
{
    if b.len() == 0 {
    } else if a.len() == 0 {
        assert(names_part_at(a, b, 0));
    } else if a[0] != b[0] {
        if text_before(a[0], b[0]) {
            assert(names_part_at(a, b, 0));
        } else {
            assert forall|at: int| !#[trigger] names_part_at(a, b, at) by {
                if at > 0 && names_part_at(a, b, at) {
                    assert(a[0] == b[0]);
                }
            }
        }
    } else {
        let left = a.drop_first();
        let right = b.drop_first();
        first_name_that_differs_decides(left, right);
        lemma_text_order_is_total(a[0], b[0]);
        if names_before(left, right) {
            let at = choose|at: int| #[trigger] names_part_at(left, right, at);
            assert forall|i: int| 0 <= i < at + 1 implies #[trigger] a[i] == b[i] by {
                if i > 0 {
                    assert(left[i - 1] == right[i - 1]);
                }
            }
            assert(names_part_at(a, b, at + 1));
        }
        if exists|at: int| #[trigger] names_part_at(a, b, at) {
            let at = choose|at: int| #[trigger] names_part_at(a, b, at);
            assert forall|i: int| 0 <= i < at - 1 implies #[trigger] left[i] == right[i] by {
                assert(a[i + 1] == b[i + 1]);
            }
            assert(names_part_at(left, right, at - 1));
        }
    }
}

/// In a list that is in order no text stands behind one that it stands before: of any two the
/// earlier one is the same or differs first by a smaller character, or ends there.
pub proof fn earlier_text_is_not_greater(list: Seq<Seq<char>>, i: int, j: int)
    requires
        in_text_order(list),
        0 <= i < j < list.len(),
    ensures
        list[i] == list[j] || exists|at: int| #[trigger] parts_at(list[i], list[j], at),
{
    lemma_text_order_is_total(list[i], list[j]);
    first_difference_decides(list[i], list[j]);
}

} // verus!
