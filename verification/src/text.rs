//! Text as a sequence of characters.
//!
//! Rules that read text work on `Vec<char>`, so that a place in the text is an
//! index and a piece of it is a range.

use vstd::prelude::*;

verus! {

/// `String::push` puts the character at the end of the text and changes nothing
/// else.
pub assume_specification[ String::push ](text: &mut String, c: char)
    ensures
        final(text)@ == old(text)@.push(c),
;

/// The characters of a text.
pub fn chars_of(text: &str) -> (chars: Vec<char>)
    ensures
        chars@ == text@,
{
    let mut chars: Vec<char> = Vec::new();
    for c in it: text.chars()
        invariant
            it.seq() == text@,
            chars@ == text@.take(it.index()),
    {
        chars.push(c);
        assert(chars@ =~= text@.take(it.index() + 1));
    }
    assert(text@.take(text@.len() as int) =~= text@);
    chars
}

/// The text that a run of characters spells.
pub fn text_of(chars: &Vec<char>) -> (text: String)
    ensures
        text@ == chars@,
{
    let mut text = String::new();
    let mut index: usize = 0;
    while index < chars.len()
        invariant
            index <= chars@.len(),
            text@ =~= chars@.take(index as int),
        decreases chars@.len() - index,
    {
        text.push(chars[index]);
        index += 1;
        assert(text@ =~= chars@.take(index as int));
    }
    assert(chars@.take(chars@.len() as int) =~= chars@);
    text
}

/// The characters from `from` up to `to`.
pub fn piece(chars: &Vec<char>, from: usize, to: usize) -> (part: Vec<char>)
    requires
        from <= to <= chars@.len(),
    ensures
        part@ == chars@.subrange(from as int, to as int),
{
    let mut part: Vec<char> = Vec::new();
    let mut index: usize = from;
    while index < to
        invariant
            from <= index <= to <= chars@.len(),
            part@ =~= chars@.subrange(from as int, index as int),
        decreases to - index,
    {
        part.push(chars[index]);
        index += 1;
    }
    part
}

pub fn same_chars(a: &Vec<char>, b: &Vec<char>) -> (same: bool)
    ensures
        same == (a@ == b@),
{
    if a.len() != b.len() {
        return false;
    }
    let mut index: usize = 0;
    while index < a.len()
        invariant
            index <= a@.len(),
            a@.len() == b@.len(),
            a@.take(index as int) =~= b@.take(index as int),
        decreases a@.len() - index,
    {
        if a[index] != b[index] {
            assert(a@[index as int] != b@[index as int]);
            return false;
        }
        assert(a@.take(index + 1) =~= a@.take(index as int).push(a@[index as int]));
        assert(b@.take(index + 1) =~= b@.take(index as int).push(b@[index as int]));
        index += 1;
    }
    assert(a@.take(a@.len() as int) =~= a@);
    assert(b@.take(b@.len() as int) =~= b@);
    true
}

pub fn same_text(a: &str, b: &str) -> (same: bool)
    ensures
        same == (a@ == b@),
{
    let left = chars_of(a);
    let right = chars_of(b);
    same_chars(&left, &right)
}

/// The characters that count as white space in Unicode.
pub open spec fn is_white(c: char) -> bool {
    ||| '\u{9}' <= c <= '\u{d}'
    ||| c == ' '
    ||| c == '\u{85}'
    ||| c == '\u{a0}'
    ||| c == '\u{1680}'
    ||| '\u{2000}' <= c <= '\u{200a}'
    ||| c == '\u{2028}'
    ||| c == '\u{2029}'
    ||| c == '\u{202f}'
    ||| c == '\u{205f}'
    ||| c == '\u{3000}'
}

pub fn is_white_space(c: char) -> (white: bool)
    ensures
        white == is_white(c),
{
    ('\u{9}' <= c && c <= '\u{d}') || c == ' ' || c == '\u{85}' || c == '\u{a0}' || c == '\u{1680}'
        || ('\u{2000}' <= c && c <= '\u{200a}') || c == '\u{2028}' || c == '\u{2029}' || c
        == '\u{202f}' || c == '\u{205f}' || c == '\u{3000}'
}

/// A text without the white space it starts with.
pub open spec fn trimmed_start(text: Seq<char>) -> Seq<char>
    decreases text.len(),
{
    if text.len() > 0 && is_white(text[0]) {
        trimmed_start(text.drop_first())
    } else {
        text
    }
}

/// A text without the white space it ends with.
pub open spec fn trimmed_end(text: Seq<char>) -> Seq<char>
    decreases text.len(),
{
    if text.len() > 0 && is_white(text.last()) {
        trimmed_end(text.drop_last())
    } else {
        text
    }
}

/// A text without the white space around it.
pub open spec fn trimmed(text: Seq<char>) -> Seq<char> {
    trimmed_end(trimmed_start(text))
}

pub fn trim(chars: &Vec<char>) -> (inner: Vec<char>)
    ensures
        inner@ == trimmed(chars@),
{
    let mut from: usize = 0;
    assert(chars@.skip(0) =~= chars@);
    while from < chars.len() && is_white_space(chars[from])
        invariant
            from <= chars@.len(),
            trimmed_start(chars@.skip(from as int)) == trimmed_start(chars@),
        decreases chars@.len() - from,
    {
        assert(chars@.skip(from as int).drop_first() =~= chars@.skip(from + 1));
        from += 1;
    }
    let ghost rest = chars@.skip(from as int);
    assert(trimmed_start(chars@) == rest);
    let mut to: usize = chars.len();
    assert(chars@.subrange(from as int, to as int) =~= rest);
    while from < to && is_white_space(chars[to - 1])
        invariant
            from <= to <= chars@.len(),
            trimmed_end(chars@.subrange(from as int, to as int)) == trimmed_end(rest),
        decreases to - from,
    {
        assert(chars@.subrange(from as int, to as int).drop_last() =~= chars@.subrange(
            from as int,
            to - 1,
        ));
        to -= 1;
    }
    piece(chars, from, to)
}

/// A character in lower case, as far as the result is an ASCII letter: the
/// capitals of ASCII, and the Kelvin sign.
pub open spec fn folded(c: char) -> char {
    if 'A' <= c <= 'Z' {
        ((c as u8) + 32) as char
    } else if c == '\u{212a}' {
        'k'
    } else {
        c
    }
}

pub open spec fn folded_text(text: Seq<char>) -> Seq<char> {
    text.map_values(|c: char| folded(c))
}

pub fn fold(c: char) -> (lower: char)
    ensures
        lower == folded(c),
{
    if 'A' <= c && c <= 'Z' {
        ((c as u8) + 32) as char
    } else if c == '\u{212a}' {
        'k'
    } else {
        c
    }
}

pub fn fold_text(chars: &Vec<char>) -> (lower: Vec<char>)
    ensures
        lower@ == folded_text(chars@),
{
    let mut lower: Vec<char> = Vec::new();
    let mut index: usize = 0;
    while index < chars.len()
        invariant
            index <= chars@.len(),
            lower@ =~= folded_text(chars@.take(index as int)),
        decreases chars@.len() - index,
    {
        lower.push(fold(chars[index]));
        index += 1;
    }
    assert(chars@.take(chars@.len() as int) =~= chars@);
    lower
}

pub open spec fn starts_with(text: Seq<char>, start: Seq<char>) -> bool {
    start.len() <= text.len() && text.take(start.len() as int) == start
}

pub open spec fn ends_with(text: Seq<char>, end: Seq<char>) -> bool {
    end.len() <= text.len() && text.skip(text.len() - end.len()) == end
}

pub fn has_prefix(text: &Vec<char>, start: &Vec<char>) -> (found: bool)
    ensures
        found == starts_with(text@, start@),
{
    if start.len() > text.len() {
        return false;
    }
    let head = piece(text, 0, start.len());
    assert(head@ =~= text@.take(start@.len() as int));
    same_chars(&head, start)
}

pub fn has_suffix(text: &Vec<char>, end: &Vec<char>) -> (found: bool)
    ensures
        found == ends_with(text@, end@),
{
    if end.len() > text.len() {
        return false;
    }
    let tail = piece(text, text.len() - end.len(), text.len());
    assert(tail@ =~= text@.skip(text@.len() - end@.len()));
    same_chars(&tail, end)
}

/// Puts `more` at the end of `chars`.
pub fn push_chars(chars: &mut Vec<char>, more: &Vec<char>)
    ensures
        final(chars)@ == old(chars)@ + more@,
{
    let ghost before = chars@;
    let mut index: usize = 0;
    assert(before + more@.take(0) =~= before);
    while index < more.len()
        invariant
            index <= more@.len(),
            chars@ == before + more@.take(index as int),
        decreases more@.len() - index,
    {
        chars.push(more[index]);
        index += 1;
        assert(chars@ =~= before + more@.take(index as int));
    }
    assert(more@.take(more@.len() as int) =~= more@);
}

/// Two texts, one after the other.
pub fn joined(a: &str, b: &str) -> (text: String)
    ensures
        text@ == a@ + b@,
{
    let mut text = a.to_owned();
    text.append(b);
    text
}

/// A number as it is written in decimal.
pub open spec fn decimal(number: nat) -> Seq<char>
    decreases number,
{
    if number < 10 {
        seq![digit(number)]
    } else {
        decimal(number / 10).push(digit(number % 10))
    }
}

pub open spec fn digit(value: nat) -> char {
    ((48 + value) as u8) as char
}

fn digit_char(value: u64) -> (c: char)
    requires
        value < 10,
    ensures
        c == digit(value as nat),
{
    (48 + value as u8) as char
}

pub fn decimal_text(number: u64) -> (text: Vec<char>)
    ensures
        text@ == decimal(number as nat),
    decreases number,
{
    if number < 10 {
        let mut text: Vec<char> = Vec::new();
        text.push(digit_char(number));
        assert(text@ =~= seq![digit(number as nat)]);
        text
    } else {
        let mut text = decimal_text(number / 10);
        text.push(digit_char(number % 10));
        text
    }
}

/// What the pieces of a text spell.
pub open spec fn spelled(pieces: Seq<Vec<char>>) -> Seq<Seq<char>> {
    pieces.map_values(|piece: Vec<char>| piece@)
}

/// What the texts of a list spell.
pub open spec fn texts(list: Seq<String>) -> Seq<Seq<char>> {
    list.map_values(|text: String| text@)
}

/// A text cut at every `a` and every `b`: one piece more than there are cuts.
pub open spec fn cut(text: Seq<char>, a: char, b: char) -> Seq<Seq<char>>
    decreases text.len(),
{
    if text.len() == 0 {
        seq![Seq::<char>::empty()]
    } else {
        let before = cut(text.drop_last(), a, b);
        let last = text.last();
        if last == a || last == b {
            before.push(Seq::empty())
        } else {
            before.drop_last().push(before.last().push(last))
        }
    }
}

pub fn split_on(chars: &Vec<char>, a: char, b: char) -> (pieces: Vec<Vec<char>>)
    ensures
        spelled(pieces@) == cut(chars@, a, b),
        pieces@.len() > 0,
{
    let mut pieces: Vec<Vec<char>> = Vec::new();
    let mut current: Vec<char> = Vec::new();
    let mut index: usize = 0;
    assert(spelled(pieces@).push(current@) =~= cut(chars@.take(0), a, b));
    while index < chars.len()
        invariant
            index <= chars@.len(),
            spelled(pieces@).push(current@) == cut(chars@.take(index as int), a, b),
        decreases chars@.len() - index,
    {
        let c = chars[index];
        let ghost sofar = spelled(pieces@).push(current@);
        assert(chars@.take(index + 1).drop_last() =~= chars@.take(index as int));
        if c == a || c == b {
            let ghost had = pieces@;
            let ghost done = current@;
            pieces.push(current);
            current = Vec::new();
            assert(spelled(pieces@) =~= spelled(had).push(done));
            assert(current@ =~= Seq::<char>::empty());
        } else {
            assert(sofar.drop_last() =~= spelled(pieces@));
            current.push(c);
        }
        index += 1;
    }
    assert(chars@.take(chars@.len() as int) =~= chars@);
    let ghost had = pieces@;
    let ghost done = current@;
    pieces.push(current);
    assert(spelled(pieces@) =~= spelled(had).push(done));
    pieces
}

/// `part` stands in `text` at place `at`.
pub open spec fn stands_at(text: Seq<char>, part: Seq<char>, at: int) -> bool {
    0 <= at && at + part.len() <= text.len() && text.subrange(at, at + part.len()) == part
}

/// `part` stands somewhere in `text`.
pub open spec fn holds_text(text: Seq<char>, part: Seq<char>) -> bool {
    exists|at: int| #[trigger] stands_at(text, part, at)
}

pub fn contains_text(text: &Vec<char>, part: &str) -> (found: bool)
    ensures
        found == holds_text(text@, part@),
{
    let wanted = chars_of(part);
    if wanted.len() > text.len() {
        return false;
    }
    let total: usize = text.len();
    let last: usize = total - wanted.len();
    let mut at: usize = 0;
    while at <= last
        invariant
            at <= last + 1,
            total == text@.len(),
            last + wanted@.len() == total,
            wanted@ == part@,
            forall|i: int| 0 <= i < at ==> !#[trigger] stands_at(text@, part@, i),
        decreases last + 1 - at,
    {
        let here = piece(text, at, at + wanted.len());
        if same_chars(&here, &wanted) {
            assert(stands_at(text@, part@, at as int));
            return true;
        }
        if at == last {
            assert(forall|i: int| !#[trigger] stands_at(text@, part@, i));
            return false;
        }
        at += 1;
    }
    false
}

/// A character with the capitals of ASCII in lower case, and no other.
pub open spec fn ascii_lowered(c: char) -> char {
    if 'A' <= c <= 'Z' {
        ((c as u8) + 32) as char
    } else {
        c
    }
}

pub open spec fn ascii_lowered_text(text: Seq<char>) -> Seq<char> {
    text.map_values(|c: char| ascii_lowered(c))
}

pub fn ascii_lower_text(chars: &Vec<char>) -> (lower: Vec<char>)
    ensures
        lower@ == ascii_lowered_text(chars@),
{
    let mut lower: Vec<char> = Vec::new();
    let mut index: usize = 0;
    while index < chars.len()
        invariant
            index <= chars@.len(),
            lower@ =~= ascii_lowered_text(chars@.take(index as int)),
        decreases chars@.len() - index,
    {
        let c = chars[index];
        if 'A' <= c && c <= 'Z' {
            lower.push(((c as u8) + 32) as char);
        } else {
            lower.push(c);
        }
        index += 1;
    }
    assert(chars@.take(chars@.len() as int) =~= chars@);
    lower
}

pub open spec fn is_digit(c: char) -> bool {
    '0' <= c <= '9'
}

/// The number that digits spell.
pub open spec fn digits_value(digits: Seq<char>) -> nat
    decreases digits.len(),
{
    if digits.len() == 0 {
        0
    } else {
        digits_value(digits.drop_last()) * 10 + ((digits.last() as int - 48) as nat)
    }
}

/// The digits of a written number: a plus sign may stand before them.
pub open spec fn unsigned_part(text: Seq<char>) -> Seq<char> {
    if text.len() > 0 && text[0] == '+' {
        text.drop_first()
    } else {
        text
    }
}

/// The number that a text spells: digits only, with or without a plus sign before
/// them, and no more than 64 bits hold.
pub open spec fn number_of(text: Seq<char>) -> Option<u64> {
    let digits = unsigned_part(text);
    if digits.len() > 0 && (forall|i: int| 0 <= i < digits.len() ==> is_digit(#[trigger] digits[i]))
        && digits_value(digits) <= u64::MAX {
        Some(digits_value(digits) as u64)
    } else {
        None
    }
}

/// What a written number is made of: digits, which spell it.
pub proof fn lemma_decimal_is_digits(number: nat)
    ensures
        decimal(number).len() > 0,
        forall|i: int| 0 <= i < decimal(number).len() ==> is_digit(#[trigger] decimal(number)[i]),
        digits_value(decimal(number)) == number,
    decreases number,
{
    reveal_with_fuel(digits_value, 2);
    let text = decimal(number);
    if number < 10 {
        assert(text[0] == digit(number));
        assert(text.drop_last() =~= Seq::<char>::empty());
    } else {
        lemma_decimal_is_digits(number / 10);
        let shorter = decimal(number / 10);
        assert(text.drop_last() =~= shorter);
        assert(text.last() == digit(number % 10));
        assert forall|i: int| 0 <= i < text.len() implies is_digit(#[trigger] text[i]) by {
            if i < shorter.len() {
                assert(text[i] == shorter[i]);
            }
        }
    }
}

/// A number that is written is read back.
pub proof fn written_number_reads_back(number: u64)
    ensures
        number_of(decimal(number as nat)) == Some(number),
        trimmed(decimal(number as nat)) == decimal(number as nat),
{
    let text = decimal(number as nat);
    lemma_decimal_is_digits(number as nat);
    assert(is_digit(text[0]));
    assert(is_digit(text[text.len() - 1]));
}

proof fn lemma_more_digits(digits: Seq<char>, fewer: int)
    requires
        0 <= fewer <= digits.len(),
        forall|i: int| 0 <= i < digits.len() ==> is_digit(#[trigger] digits[i]),
    ensures
        digits_value(digits.take(fewer)) <= digits_value(digits),
    decreases digits.len(),
{
    if fewer < digits.len() {
        let shorter = digits.drop_last();
        assert(shorter.take(fewer) =~= digits.take(fewer));
        assert forall|i: int| 0 <= i < shorter.len() implies is_digit(#[trigger] shorter[i]) by {
            assert(is_digit(digits[i]));
        }
        lemma_more_digits(shorter, fewer);
        assert(is_digit(digits[digits.len() - 1]));
    } else {
        assert(digits.take(fewer) =~= digits);
    }
}

/// The number that a text spells.
pub fn parse_number(text: &Vec<char>) -> (number: Option<u64>)
    ensures
        number == number_of(text@),
{
    let mut index: usize = 0;
    if text.len() > 0 && text[0] == '+' {
        index = 1;
    }
    let first: usize = index;
    let ghost digits = unsigned_part(text@);
    assert(digits =~= text@.skip(first as int));
    if index >= text.len() {
        return None;
    }
    let mut value: u64 = 0;
    while index < text.len()
        invariant
            first <= index <= text@.len(),
            first <= 1,
            digits == text@.skip(first as int),
            digits == unsigned_part(text@),
            value == digits_value(digits.take(index - first)),
            forall|i: int| 0 <= i < index - first ==> is_digit(#[trigger] digits[i]),
        decreases text@.len() - index,
    {
        let c = text[index];
        assert(digits[index - first] == c);
        if !('0' <= c && c <= '9') {
            return None;
        }
        let ghost next = digits.take(index - first + 1);
        assert(next.drop_last() =~= digits.take(index - first));
        let digit: u64 = c as u64 - 48;
        if value > (u64::MAX - digit) / 10 {
            proof {
                if forall|i: int| 0 <= i < digits.len() ==> is_digit(#[trigger] digits[i]) {
                    lemma_more_digits(digits, index - first + 1);
                    assert(digits_value(next) == value * 10 + digit);
                }
            }
            return None;
        }
        value = value * 10 + digit;
        index += 1;
    }
    assert(digits.take(digits.len() as int) =~= digits);
    Some(value)
}

/// Characters `from` up to `to` are what stands between the white space around a text: all
/// before and all behind is white space, and neither end of what is left is.
pub open spec fn stands_between(text: Seq<char>, from: int, to: int) -> bool {
    &&& 0 <= from <= to <= text.len()
    &&& forall|i: int| 0 <= i < from ==> is_white(#[trigger] text[i])
    &&& forall|i: int| to <= i < text.len() ==> is_white(#[trigger] text[i])
    &&& from < to ==> !is_white(text[from]) && !is_white(text[to - 1])
}

proof fn lemma_trimmed_start(text: Seq<char>) -> (from: int)
    ensures
        0 <= from <= text.len(),
        trimmed_start(text) == text.skip(from),
        forall|i: int| 0 <= i < from ==> is_white(#[trigger] text[i]),
        from < text.len() ==> !is_white(text[from]),
    decreases text.len(),
{
    if text.len() > 0 && is_white(text[0]) {
        let inner = lemma_trimmed_start(text.drop_first());
        let from = inner + 1;
        assert(text.drop_first().skip(inner) =~= text.skip(from));
        assert forall|i: int| 0 <= i < from implies is_white(#[trigger] text[i]) by {
            if i > 0 {
                assert(is_white(text.drop_first()[i - 1]));
            }
        }
        from
    } else {
        assert(text.skip(0) =~= text);
        0
    }
}

proof fn lemma_trimmed_end(text: Seq<char>) -> (to: int)
    ensures
        0 <= to <= text.len(),
        trimmed_end(text) == text.take(to),
        forall|i: int| to <= i < text.len() ==> is_white(#[trigger] text[i]),
        to > 0 ==> !is_white(text[to - 1]),
    decreases text.len(),
{
    if text.len() > 0 && is_white(text.last()) {
        let to = lemma_trimmed_end(text.drop_last());
        assert(text.drop_last().take(to) =~= text.take(to));
        assert forall|i: int| to <= i < text.len() implies is_white(#[trigger] text[i]) by {
            if i < text.len() - 1 {
                assert(is_white(text.drop_last()[i]));
            }
        }
        to
    } else {
        assert(text.take(text.len() as int) =~= text);
        text.len() as int
    }
}

/// A text without the white space around it is a run of its characters in their order: white
/// space alone is left out, at both ends, and none of it is left there.
pub proof fn white_space_alone_is_taken_off(text: Seq<char>)
    ensures
        exists|from: int, to: int| #[trigger]
            stands_between(text, from, to) && trimmed(text) == text.subrange(from, to),
        trimmed(text).len() > 0 <==> exists|i: int|
            0 <= i < text.len() && !is_white(#[trigger] text[i]),
{
    let from = lemma_trimmed_start(text);
    let rest = text.skip(from);
    let length = lemma_trimmed_end(rest);
    let to = from + length;
    assert(rest.take(length) =~= text.subrange(from, to));
    assert forall|i: int| to <= i < text.len() implies is_white(#[trigger] text[i]) by {
        assert(is_white(rest[i - from]));
    }
    if from < to {
        assert(text[to - 1] == rest[length - 1]);
        assert(!is_white(text[from]));
    }
    assert(stands_between(text, from, to));
    if length == 0 {
        assert forall|i: int| 0 <= i < text.len() implies is_white(#[trigger] text[i]) by {
            if i < from {
                assert(is_white(text[i]));
            }
        }
    }
}

/// A text that holds neither mark is one piece, and a mark parts a text: the pieces are those
/// of what stands before it and then those of what stands behind it.
pub proof fn marks_part_a_text(left: Seq<char>, mark: char, right: Seq<char>, a: char, b: char)
    requires
        mark == a || mark == b,
    ensures
        !left.contains(a) && !left.contains(b) ==> cut(left, a, b) == seq![left],
        cut(left.push(mark) + right, a, b) == cut(left, a, b) + cut(right, a, b),
{
    lemma_uncut(left, a, b);
    lemma_cut_parts(left, mark, right, a, b);
}

proof fn lemma_uncut(text: Seq<char>, a: char, b: char)
    ensures
        cut(text, a, b).len() > 0,
        !text.contains(a) && !text.contains(b) ==> cut(text, a, b) == seq![text],
    decreases text.len(),
{
    if text.len() > 0 {
        let shorter = text.drop_last();
        lemma_uncut(shorter, a, b);
        if !text.contains(a) && !text.contains(b) {
            assert(text.contains(text[text.len() - 1]));
            assert forall|c: char| shorter.contains(c) implies text.contains(c) by {
                let i = choose|i: int| 0 <= i < shorter.len() && shorter[i] == c;
                assert(text[i] == c);
            }
            assert(shorter.push(text.last()) =~= text);
            assert(cut(text, a, b) =~= seq![text]);
        }
    } else {
        assert(text =~= Seq::<char>::empty());
    }
}

proof fn lemma_cut_parts(left: Seq<char>, mark: char, right: Seq<char>, a: char, b: char)
    requires
        mark == a || mark == b,
    ensures
        cut(left.push(mark) + right, a, b) == cut(left, a, b) + cut(right, a, b),
    decreases right.len(),
{
    let whole = left.push(mark) + right;
    if right.len() == 0 {
        assert(whole =~= left.push(mark));
        assert(whole.drop_last() =~= left);
        assert(cut(whole, a, b) =~= cut(left, a, b) + cut(right, a, b));
    } else {
        let shorter = right.drop_last();
        lemma_cut_parts(left, mark, shorter, a, b);
        lemma_uncut(shorter, a, b);
        assert(whole.drop_last() =~= left.push(mark) + shorter);
        assert(whole.last() == right.last());
        assert(cut(whole, a, b) =~= cut(left, a, b) + cut(right, a, b));
    }
}

/// Folding leaves no ASCII capital, changes nothing that is none, and does nothing more when
/// it is done again. Two characters that differ in case alone are folded alike.
pub proof fn folding_takes_the_capitals(c: char)
    ensures
        !('A' <= folded(c) <= 'Z'),
        folded(folded(c)) == folded(c),
        'A' <= c <= 'Z' ==> folded(c) as int == c as int + 32,
        c == '\u{212a}' ==> folded(c) == 'k',
        !('A' <= c <= 'Z') && c != '\u{212a}' ==> folded(c) == c,
        !('A' <= ascii_lowered(c) <= 'Z'),
        'A' <= c <= 'Z' ==> ascii_lowered(c) as int == c as int + 32,
        !('A' <= c <= 'Z') ==> ascii_lowered(c) == c,
{
}

/// Of two written numbers the one with a digit behind it is ten times as much and that digit
/// more; a plus sign before the digits changes nothing.
pub proof fn digits_count_by_their_place(digits: Seq<char>, last: char)
    requires
        digits.len() > 0,
        forall|i: int| 0 <= i < digits.len() ==> '0' <= #[trigger] digits[i] <= '9',
        '0' <= last <= '9',
    ensures
        number_of(seq![last]) == Some((last as int - '0' as int) as u64),
        number_of(seq!['+'] + digits) == number_of(digits),
        number_of(digits.push(last)) matches Some(more) ==> number_of(digits) is Some && more
            == number_of(digits)->0 * 10 + (last as int - '0' as int),
        number_of(digits) matches Some(less) ==> (number_of(digits.push(last)) is None <==> less
            * 10 + (last as int - '0' as int) > u64::MAX),
{
    let one = seq![last];
    let more = digits.push(last);
    assert(one.drop_last() =~= Seq::<char>::empty());
    assert(digits_value(one) == digits_value(one.drop_last()) * 10 + (last as int - 48) as nat);
    assert(digits_value(Seq::<char>::empty()) == 0);
    assert(one[0] == last);
    assert((seq!['+'] + digits).drop_first() =~= digits);
    assert(more.drop_last() =~= digits);
    assert(is_digit(digits[0]));
    assert(is_digit(more[0])) by {
        assert(more[0] == digits[0]);
    }
    assert forall|i: int| 0 <= i < more.len() implies is_digit(#[trigger] more[i]) by {
        if i < digits.len() {
            assert(more[i] == digits[i]);
        }
    }
    assert forall|i: int| 0 <= i < digits.len() implies is_digit(#[trigger] digits[i]) by {
    }
    assert forall|i: int| 0 <= i < one.len() implies is_digit(#[trigger] one[i]) by {
    }
}

} // verus!
