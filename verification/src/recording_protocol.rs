//! Handing a stored recording to the player, over a URL of its own.

use crate::encrypted_audio::AudioSource;
use crate::paths::{extension, inside, is_within, path_extension, within};
use crate::retranscription::{
    find_audio_file, holds_no_recording, is_audio_extension, is_recording_in, known_audio_extension,
};
use crate::text::{
    ascii_lower_text, ascii_lowered_text, chars_of, decimal, decimal_text, has_prefix, is_digit,
    joined, lemma_decimal_is_digits, number_of, parse_number, piece, same_text, starts_with,
    text_of, texts, trim, trimmed, written_number_reads_back,
};
use vstd::prelude::*;
use vstd::utf8::{decode_utf8, encode_utf8, valid_utf8};

verus! {

/// The scheme the player fetches recordings over.
pub const SCHEME: &'static str = "recording";

/// The value of a hexadecimal digit.
pub open spec fn hex_value(byte: u8) -> Option<u8> {
    if 48 <= byte <= 57 {
        Some((byte - 48) as u8)
    } else if 97 <= byte <= 102 {
        Some((byte - 87) as u8)
    } else if 65 <= byte <= 70 {
        Some((byte - 55) as u8)
    } else {
        None
    }
}

fn hex_digit(byte: u8) -> (value: Option<u8>)
    ensures
        value == hex_value(byte),
        value matches Some(digit) ==> digit < 16,
{
    if 48 <= byte && byte <= 57 {
        Some(byte - 48)
    } else if 97 <= byte && byte <= 102 {
        Some(byte - 87)
    } else if 65 <= byte && byte <= 70 {
        Some(byte - 55)
    } else {
        None
    }
}

/// The byte that two characters behind a percent sign stand for. A plus sign may stand
/// in place of the first.
pub open spec fn escaped_byte(first: u8, second: u8) -> Option<u8> {
    match (hex_value(first), hex_value(second)) {
        (Some(high), Some(low)) => Some((16 * high + low) as u8),
        (None, Some(low)) => if first == 43 {
            Some(low)
        } else {
            None
        },
        _ => None,
    }
}

/// Bytes with their escapes resolved. A percent sign with fewer than two bytes behind it
/// stands for itself; one with two that are no number cannot be read.
pub open spec fn unescaped(bytes: Seq<u8>) -> Option<Seq<u8>>
    decreases bytes.len(),
{
    if bytes.len() == 0 {
        Some(Seq::empty())
    } else if bytes[0] == 37 && bytes.len() > 2 {
        match (escaped_byte(bytes[1], bytes[2]), unescaped(bytes.skip(3))) {
            (Some(byte), Some(rest)) => Some(seq![byte] + rest),
            _ => None,
        }
    } else {
        match unescaped(bytes.drop_first()) {
            Some(rest) => Some(seq![bytes[0]] + rest),
            None => None,
        }
    }
}

/// The text that bytes spell in UTF-8.
///
/// Calls `String::from_utf8`. Claimed: there is a text exactly when the bytes are valid
/// UTF-8, and then it is the one that they spell.
#[verifier::external_body]
fn text_from_utf8(bytes: Vec<u8>) -> (text: Option<String>)
    ensures
        match text {
            Some(spelt) => valid_utf8(bytes@) && spelt@ == decode_utf8(bytes@),
            None => !valid_utf8(bytes@),
        },
{
    String::from_utf8(bytes).ok()
}

/// The text that escaped bytes stand for.
pub open spec fn percent_decoded(bytes: Seq<u8>) -> Option<Seq<char>> {
    match unescaped(bytes) {
        Some(plain) => if valid_utf8(plain) {
            Some(decode_utf8(plain))
        } else {
            None
        },
        None => None,
    }
}

fn percent_decode(bytes: &[u8], from: usize) -> (text: Option<String>)
    requires
        from <= bytes@.len(),
    ensures
        match text {
            Some(plain) => percent_decoded(bytes@.skip(from as int)) == Some(plain@),
            None => percent_decoded(bytes@.skip(from as int)) is None,
        },
{
    let ghost all = unescaped(bytes@.skip(from as int));
    let mut decoded: Vec<u8> = Vec::new();
    let mut index: usize = from;
    let total: usize = bytes.len();
    assert(all matches Some(rest) ==> decoded@ + rest =~= rest);
    while index < total
        invariant
            from <= index <= total,
            total == bytes@.len(),
            all == unescaped(bytes@.skip(from as int)),
            match unescaped(bytes@.skip(index as int)) {
                Some(rest) => all == Some(decoded@ + rest),
                None => all is None,
            },
        decreases total - index,
    {
        let ghost here = bytes@.skip(index as int);
        let ghost before = decoded@;
        if bytes[index] == 37 && total - index > 2 {
            let high = hex_digit(bytes[index + 1]);
            let low = hex_digit(bytes[index + 2]);
            let byte: Option<u8> = match (high, low) {
                (Some(high), Some(low)) => Some(16 * high + low),
                (None, Some(low)) => if bytes[index + 1] == 43 {
                    Some(low)
                } else {
                    None
                },
                _ => None,
            };
            assert(here[1] == bytes@[index + 1] && here[2] == bytes@[index + 2]);
            assert(byte == escaped_byte(here[1], here[2]));
            assert(here.skip(3) =~= bytes@.skip(index + 3));
            match byte {
                Some(value) => {
                    decoded.push(value);
                    proof {
                        if let Some(rest) = unescaped(here.skip(3)) {
                            assert(before + (seq![value] + rest) =~= decoded@ + rest);
                        }
                    }
                    index += 3;
                },
                None => {
                    return None;
                },
            }
        } else {
            decoded.push(bytes[index]);
            assert(here.drop_first() =~= bytes@.skip(index + 1));
            proof {
                if let Some(rest) = unescaped(here.drop_first()) {
                    assert(before + (seq![here[0]] + rest) =~= decoded@ + rest);
                }
            }
            index += 1;
        }
    }
    assert(bytes@.skip(index as int) =~= Seq::<u8>::empty());
    assert(decoded@ + Seq::<u8>::empty() =~= decoded@);
    text_from_utf8(decoded)
}

/// What a request path carries behind its slash.
pub open spec fn carried(uri: Seq<u8>) -> Seq<u8> {
    if uri.len() > 0 && uri[0] == 47 {
        uri.drop_first()
    } else {
        uri
    }
}

/// The file a request is asking for. The whole path arrives as one percent-encoded
/// segment.
pub fn requested_path(uri_path: &str) -> (path: Option<String>)
    ensures
        ({
            let encoded = carried(encode_utf8(uri_path@));
            match path {
                Some(text) => encoded.len() > 0 && percent_decoded(encoded) == Some(text@),
                None => encoded.len() == 0 || percent_decoded(encoded) is None,
            }
        }),
{
    let bytes = uri_path.as_bytes();
    let from: usize = if bytes.len() > 0 && bytes[0] == 47 {
        1
    } else {
        0
    };
    assert(bytes@.skip(from as int) =~= carried(encode_utf8(uri_path@)));
    if from >= bytes.len() {
        return None;
    }
    percent_decode(bytes, from)
}

/// An upper-case hexadecimal digit.
pub open spec fn hex_char(value: int) -> u8 {
    if value < 10 {
        (48 + value) as u8
    } else {
        (55 + value) as u8
    }
}

/// Bytes with every one escaped that is not to be kept as it is. A percent sign is never
/// kept.
pub open spec fn escaped(bytes: Seq<u8>, kept: spec_fn(u8) -> bool) -> Seq<u8>
    decreases bytes.len(),
{
    if bytes.len() == 0 {
        Seq::empty()
    } else {
        let first = if kept(bytes[0]) && bytes[0] != 37 {
            seq![bytes[0]]
        } else {
            seq![37u8, hex_char(bytes[0] as int / 16), hex_char(bytes[0] as int % 16)]
        };
        first + escaped(bytes.drop_first(), kept)
    }
}

/// A path survives being carried in a URL, whichever of its bytes are escaped on the way.
pub proof fn escaped_bytes_read_back(bytes: Seq<u8>, kept: spec_fn(u8) -> bool)
    ensures
        unescaped(escaped(bytes, kept)) == Some(bytes),
    decreases bytes.len(),
{
    if bytes.len() > 0 {
        let rest = bytes.drop_first();
        escaped_bytes_read_back(rest, kept);
        let tail = escaped(rest, kept);
        let whole = escaped(bytes, kept);
        if kept(bytes[0]) && bytes[0] != 37 {
            assert(whole[0] == bytes[0]);
            assert(whole.drop_first() =~= tail);
        } else {
            assert(whole[0] == 37 && whole[1] == hex_char(bytes[0] as int / 16) && whole[2]
                == hex_char(bytes[0] as int % 16));
            assert(whole.skip(3) =~= tail);
        }
        assert(seq![bytes[0]] + rest =~= bytes);
    } else {
        assert(escaped(bytes, kept) =~= Seq::<u8>::empty());
        assert(bytes =~= Seq::<u8>::empty());
    }
}

/// A path written in any language survives it too: what is asked for is what was
/// escaped.
pub proof fn escaped_path_is_asked_for(path: Seq<char>, kept: spec_fn(u8) -> bool)
    ensures
        percent_decoded(escaped(encode_utf8(path), kept)) == Some(path),
{
    escaped_bytes_read_back(encode_utf8(path), kept);
    vstd::utf8::encode_utf8_valid_utf8(path);
    vstd::utf8::encode_utf8_decode_utf8(path);
}

/// The extension of a path in lower case.
pub open spec fn lower_extension(path: Seq<char>) -> Option<Seq<char>> {
    match extension(path) {
        Some(written) => Some(ascii_lowered_text(written)),
        None => None,
    }
}

fn extension_in_lower_case(path: &str) -> (found: Option<String>)
    ensures
        match found {
            Some(text) => lower_extension(path@) == Some(text@),
            None => lower_extension(path@) is None,
        },
{
    match path_extension(path) {
        Some(written) => Some(text_of(&ascii_lower_text(&written))),
        None => None,
    }
}

/// Only audio is served.
pub fn is_audio(path: &str) -> (audio: bool)
    ensures
        audio == (lower_extension(path@) matches Some(found) && is_audio_extension(found)),
{
    match extension_in_lower_case(path) {
        Some(found) => known_audio_extension(found.as_str()),
        None => false,
    }
}

/// What the player is told a file with this extension is.
pub open spec fn media_type(extension: Option<Seq<char>>) -> Seq<char> {
    match extension {
        Some(found) => if found == "mp4"@ || found == "m4a"@ {
            "audio/mp4"@
        } else if found == "flac"@ {
            "audio/flac"@
        } else if found == "wav"@ {
            "audio/wav"@
        } else if found == "mp3"@ {
            "audio/mpeg"@
        } else if found == "ogg"@ || found == "oga"@ {
            "audio/ogg"@
        } else if found == "webm"@ {
            "audio/webm"@
        } else if found == "aac"@ {
            "audio/aac"@
        } else {
            "application/octet-stream"@
        },
        None => "application/octet-stream"@,
    }
}

/// What the player should be told the file is.
pub fn content_type(path: &str) -> (kind: &'static str)
    ensures
        kind@ == media_type(lower_extension(path@)),
{
    match extension_in_lower_case(path) {
        Some(found) => {
            let found = found.as_str();
            if same_text(found, "mp4") || same_text(found, "m4a") {
                "audio/mp4"
            } else if same_text(found, "flac") {
                "audio/flac"
            } else if same_text(found, "wav") {
                "audio/wav"
            } else if same_text(found, "mp3") {
                "audio/mpeg"
            } else if same_text(found, "ogg") || same_text(found, "oga") {
                "audio/ogg"
            } else if same_text(found, "webm") {
                "audio/webm"
            } else if same_text(found, "aac") {
                "audio/aac"
            } else {
                "application/octet-stream"
            }
        },
        None => "application/octet-stream",
    }
}

/// Where the first hyphen of a text is.
pub open spec fn first_hyphen(text: Seq<char>) -> Option<int>
    decreases text.len(),
{
    if text.len() == 0 {
        None
    } else {
        match first_hyphen(text.drop_last()) {
            Some(place) => Some(place),
            None => if text.last() == '-' {
                Some(text.len() - 1)
            } else {
                None
            },
        }
    }
}

/// The bytes that a range asks for of a file of `length`: from the first up to the last,
/// or the last so many. Past the end is clamped; a range that begins there is none.
pub open spec fn range_between(head: Seq<char>, tail: Seq<char>, length: int) -> Option<
    (int, int),
> {
    let last = length - 1;
    let asked = if head.len() == 0 {
        match number_of(tail) {
            Some(count) => {
                let most = if count < 1 {
                    1
                } else {
                    count as int
                };
                Some(
                    (
                        if most > length {
                            0
                        } else {
                            length - most
                        },
                        last,
                    ),
                )
            },
            None => None,
        }
    } else if tail.len() == 0 {
        match number_of(head) {
            Some(start) => Some((start as int, last)),
            None => None,
        }
    } else {
        match (number_of(head), number_of(tail)) {
            (Some(start), Some(end)) => Some((start as int, end as int)),
            _ => None,
        }
    };
    match asked {
        Some((start, end)) => if start > last {
            None
        } else {
            Some(
                (
                    start,
                    if end < last {
                        end
                    } else {
                        last
                    },
                ),
            )
        },
        None => None,
    }
}

/// The single range that a request header asks for.
pub open spec fn asked_range(value: Seq<char>, length: int) -> Option<(int, int)> {
    let text = trimmed(value);
    if !starts_with(text, "bytes="@) {
        None
    } else {
        let ranges = text.skip("bytes="@.len() as int);
        if ranges.contains(',') || length == 0 {
            None
        } else {
            match first_hyphen(ranges) {
                Some(place) => range_between(
                    trimmed(ranges.take(place)),
                    trimmed(ranges.skip(place + 1)),
                    length,
                ),
                None => None,
            }
        }
    }
}

/// Where the first hyphen is, and whether there is a comma.
fn range_marks(text: &Vec<char>) -> (marks: (Option<usize>, bool))
    ensures
        match marks.0 {
            Some(place) => first_hyphen(text@) == Some(place as int) && place < text@.len(),
            None => first_hyphen(text@) is None,
        },
        marks.1 == text@.contains(','),
{
    let mut hyphen: Option<usize> = None;
    let mut comma = false;
    let mut index: usize = 0;
    while index < text.len()
        invariant
            index <= text@.len(),
            match hyphen {
                Some(place) => first_hyphen(text@.take(index as int)) == Some(place as int) && place
                    < index,
                None => first_hyphen(text@.take(index as int)) is None,
            },
            comma == exists|i: int| 0 <= i < index && text@[i] == ',',
        decreases text@.len() - index,
    {
        assert(text@.take(index + 1).drop_last() =~= text@.take(index as int));
        if text[index] == '-' && hyphen.is_none() {
            hyphen = Some(index);
        }
        if text[index] == ',' {
            assert(text@[index as int] == ',');
            comma = true;
        }
        index += 1;
    }
    assert(text@.take(text@.len() as int) =~= text@);
    (hyphen, comma)
}

fn range_parts(head: &Vec<char>, tail: &Vec<char>, length: u64) -> (range: Option<(u64, u64)>)
    requires
        length > 0,
    ensures
        match range {
            Some((start, end)) => range_between(head@, tail@, length as int) == Some(
                (start as int, end as int),
            ),
            None => range_between(head@, tail@, length as int) is None,
        },
{
    let last: u64 = length - 1;
    let (start, end): (u64, u64) = if head.len() == 0 {
        match parse_number(tail) {
            Some(count) => {
                let most: u64 = if count < 1 {
                    1
                } else {
                    count
                };
                (
                    if most > length {
                        0
                    } else {
                        length - most
                    },
                    last,
                )
            },
            None => {
                return None;
            },
        }
    } else if tail.len() == 0 {
        match parse_number(head) {
            Some(start) => (start, last),
            None => {
                return None;
            },
        }
    } else {
        match (parse_number(head), parse_number(tail)) {
            (Some(start), Some(end)) => (start, end),
            _ => {
                return None;
            },
        }
    };
    if start > last {
        return None;
    }
    Some(
        (
            start,
            if end < last {
                end
            } else {
                last
            },
        ),
    )
}

/// `bytes=start-end`, as a media player asks for it. Only the single-range form is
/// answered.
pub fn parse_range(value: &str, length: u64) -> (range: Option<(u64, u64)>)
    ensures
        match range {
            Some((start, end)) => asked_range(value@, length as int) == Some(
                (start as int, end as int),
            ),
            None => asked_range(value@, length as int) is None,
        },
{
    let text = trim(&chars_of(value));
    let marker = chars_of("bytes=");
    if !has_prefix(&text, &marker) {
        return None;
    }
    let ranges = piece(&text, marker.len(), text.len());
    assert(ranges@ =~= text@.skip(marker@.len() as int));
    let (hyphen, comma) = range_marks(&ranges);
    if comma || length == 0 {
        return None;
    }
    match hyphen {
        Some(place) => {
            let before = piece(&ranges, 0, place);
            let behind = piece(&ranges, place + 1, ranges.len());
            assert(before@ =~= ranges@.take(place as int));
            assert(behind@ =~= ranges@.skip(place + 1));
            range_parts(&trim(&before), &trim(&behind), length)
        },
        None => None,
    }
}

/// A range that is answered lies in the file, and is never invented where there is
/// nothing to read.
pub proof fn answered_range_is_in_the_file(value: Seq<char>, length: int)
    requires
        length >= 0,
    ensures
        asked_range(value, length) matches Some((start, end)) ==> 0 <= start < length && end
            < length && length > 0,
{
}

proof fn lemma_first_hyphen_at(text: Seq<char>, place: int)
    requires
        0 <= place < text.len(),
        text[place] == '-',
        forall|i: int| 0 <= i < place ==> text[i] != '-',
    ensures
        first_hyphen(text) == Some(place),
    decreases text.len(),
{
    let shorter = text.drop_last();
    if place == text.len() - 1 {
        lemma_no_hyphen(shorter);
    } else {
        lemma_first_hyphen_at(shorter, place);
    }
}

proof fn lemma_no_hyphen(text: Seq<char>)
    requires
        forall|i: int| 0 <= i < text.len() ==> text[i] != '-',
    ensures
        first_hyphen(text) is None,
    decreases text.len(),
{
    if text.len() > 0 {
        lemma_no_hyphen(text.drop_last());
    }
}

/// A range in bytes, as it is written with what stands before and behind its hyphen.
pub open spec fn written_range(head: Seq<char>, tail: Seq<char>) -> Seq<char> {
    "bytes="@ + head + "-"@ + tail
}

proof fn lemma_written_range(head: Seq<char>, tail: Seq<char>, length: int)
    requires
        length > 0,
        forall|i: int| 0 <= i < head.len() ==> is_digit(#[trigger] head[i]),
        forall|i: int| 0 <= i < tail.len() ==> is_digit(#[trigger] tail[i]),
    ensures
        asked_range(written_range(head, tail), length) == range_between(head, tail, length),
{
    let value = written_range(head, tail);
    reveal_strlit("bytes=");
    reveal_strlit("-");
    assert("bytes="@.len() == 6 && "-"@.len() == 1 && "-"@[0] == '-' && "bytes="@[0] == 'b');
    let ranges = value.skip(6);
    assert(ranges =~= head + "-"@ + tail);
    assert(value.take(6) =~= "bytes="@);
    assert(value[0] == 'b');
    assert(value.last() == '-' || is_digit(value.last())) by {
        if tail.len() > 0 {
            assert(value.last() == tail[tail.len() - 1]);
        }
    }
    assert(trimmed(value) == value);
    assert forall|i: int| 0 <= i < ranges.len() implies ranges[i] != ',' by {
        if i < head.len() {
            assert(is_digit(head[i]));
        } else if i > head.len() {
            assert(ranges[i] == tail[i - head.len() - 1]);
        }
    }
    assert forall|i: int| 0 <= i < head.len() implies ranges[i] != '-' by {
        assert(is_digit(head[i]));
    }
    lemma_first_hyphen_at(ranges, head.len() as int);
    assert(ranges.take(head.len() as int) =~= head);
    assert(ranges.skip(head.len() as int + 1) =~= tail);
    lemma_digits_are_trimmed(head);
    lemma_digits_are_trimmed(tail);
}

proof fn lemma_digits_are_trimmed(text: Seq<char>)
    requires
        forall|i: int| 0 <= i < text.len() ==> is_digit(#[trigger] text[i]),
    ensures
        trimmed(text) == text,
{
    if text.len() > 0 {
        assert(is_digit(text[0]));
        assert(is_digit(text[text.len() - 1]));
    }
}

/// A range is answered as it is written. From one byte to another gives these, as far as the
/// file goes, unless it begins behind the end; from one byte on gives what naming the last
/// byte gives; and the last so many give what naming the first of them gives.
pub proof fn written_ranges_are_read(first: u64, last: u64, count: u64, length: u64)
    requires
        length > 0,
        1 <= count <= length,
    ensures
        ({
            let from = decimal(first as nat);
            let to = decimal(last as nat);
            let whole = length as int;
            &&& asked_range(written_range(from, to), whole) == if first >= length {
                None
            } else {
                Some(
                    (
                        first as int,
                        if last < length - 1 {
                            last as int
                        } else {
                            length - 1
                        },
                    ),
                )
            }
            &&& asked_range(written_range(from, Seq::empty()), whole) == asked_range(
                written_range(from, decimal((length - 1) as nat)),
                whole,
            )
            &&& asked_range(written_range(from, Seq::empty()), whole) is None <==> first >= length
            &&& asked_range(written_range(Seq::empty(), decimal(count as nat)), whole)
                == asked_range(written_range(decimal((length - count) as nat), Seq::empty()), whole)
            &&& asked_range(written_range(Seq::empty(), decimal(count as nat)), whole) == Some(
                (length - count, length - 1),
            )
        }),
{
    let end = (length - 1) as u64;
    let start = (length - count) as u64;
    let nothing = Seq::<char>::empty();
    lemma_decimal_is_digits(first as nat);
    lemma_decimal_is_digits(last as nat);
    lemma_decimal_is_digits(count as nat);
    lemma_decimal_is_digits(end as nat);
    lemma_decimal_is_digits(start as nat);
    written_number_reads_back(first);
    written_number_reads_back(last);
    written_number_reads_back(count);
    written_number_reads_back(end);
    written_number_reads_back(start);
    lemma_written_range(decimal(first as nat), decimal(last as nat), length as int);
    lemma_written_range(decimal(first as nat), decimal(end as nat), length as int);
    lemma_written_range(decimal(first as nat), nothing, length as int);
    lemma_written_range(nothing, decimal(count as nat), length as int);
    lemma_written_range(decimal(start as nat), nothing, length as int);
}

/// What is read of a file to answer a request: where from, how much, and whether it is
/// only a part.
#[derive(Clone, Copy, Debug, PartialEq, Eq, Structural)]
pub struct ServePlan {
    pub start: u64,
    pub wanted: u64,
    pub partial: bool,
}

/// What is read to answer a request for audio of `length`: the range asked for, or
/// everything.
pub open spec fn served(range: Option<Seq<char>>, length: u64) -> ServePlan {
    let asked = match range {
        Some(value) => asked_range(value, length as int),
        None => None,
    };
    match asked {
        Some((start, end)) => ServePlan {
            start: start as u64,
            wanted: if end < start {
                1
            } else {
                (end - start + 1) as u64
            },
            partial: true,
        },
        None => ServePlan {
            start: 0,
            wanted: if length == 0 {
                1
            } else {
                length
            },
            partial: false,
        },
    }
}

/// What is read of a recording to answer a request. Places are those of the audio it
/// holds, whichever form it is stored in.
pub fn serve(range: Option<&str>, source: &AudioSource) -> (plan: ServePlan)
    ensures
        plan == served(
            match range {
                Some(value) => Some(value@),
                None => None,
            },
            source.length(),
        ),
{
    let length: u64 = source.len();
    let asked = match range {
        Some(value) => parse_range(value, length),
        None => None,
    };
    proof {
        if let Some(value) = range {
            answered_range_is_in_the_file(value@, length as int);
        }
    }
    match asked {
        Some((start, end)) => ServePlan {
            start,
            wanted: if end < start {
                1
            } else {
                end - start + 1
            },
            partial: true,
        },
        None => ServePlan {
            start: 0,
            wanted: if length == 0 {
                1
            } else {
                length
            },
            partial: false,
        },
    }
}

/// How a part of the audio is described, when so many bytes of it were read.
pub open spec fn range_text(start: int, read: int, length: int) -> Seq<char> {
    "bytes "@ + decimal(start as nat) + "-"@ + decimal((start + read - 1) as nat) + "/"@ + decimal(
        length as nat,
    )
}

/// How a part of a file is described, from what could really be read of it.
pub fn content_range(start: u64, read: u64, length: u64) -> (text: String)
    requires
        start + read > 0,
        start + read <= u64::MAX,
    ensures
        text@ == range_text(start as int, read as int, length as int),
{
    let from = text_of(&decimal_text(start));
    let last = text_of(&decimal_text(start + read - 1));
    let whole = text_of(&decimal_text(length));
    let mut text = joined("bytes ", from.as_str());
    text.append("-");
    text.append(last.as_str());
    text.append("/");
    text.append(whole.as_str());
    text
}

/// What the player is answered.
#[derive(Debug)]
pub struct Answer {
    pub status: u16,
    pub content_type: &'static str,
    pub accept_ranges: &'static str,
    /// No copy of a recording is kept outside what protects it.
    pub cache_control: &'static str,
    pub content_length: u64,
    pub content_range: Option<String>,
    pub body: Vec<u8>,
}

/// The status of an answer: a part, or everything.
pub open spec fn status_of(plan: ServePlan) -> int {
    if plan.partial {
        206
    } else {
        200
    }
}

/// The answer to a request, from what was planned and the bytes of the audio that could be
/// read.
pub fn answered(plan: ServePlan, path: &str, source: &AudioSource, body: Vec<u8>) -> (answer:
    Answer)
    requires
        plan.partial ==> 0 < plan.start + body@.len() <= u64::MAX,
    ensures
        answer.status == status_of(plan),
        answer.content_type@ == media_type(lower_extension(path@)),
        answer.accept_ranges@ == "bytes"@,
        answer.cache_control@ == "no-store"@,
        answer.content_length == body@.len(),
        match answer.content_range {
            Some(text) => plan.partial && text@ == range_text(
                plan.start as int,
                body@.len() as int,
                source.length() as int,
            ),
            None => !plan.partial,
        },
        answer.body == body,
{
    let read: u64 = body.len() as u64;
    let described = if plan.partial {
        Some(content_range(plan.start, read, source.len()))
    } else {
        None
    };
    Answer {
        status: if plan.partial {
            206
        } else {
            200
        },
        content_type: content_type(path),
        accept_ranges: "bytes",
        cache_control: "no-store",
        content_length: read,
        content_range: described,
        body,
    }
}

/// The bytes that a plan reads of some audio: as many as it wants, as far as there are any.
pub open spec fn read_by(plan: ServePlan, audio: Seq<u8>) -> Seq<u8> {
    let end = if plan.start + plan.wanted <= audio.len() {
        plan.start + plan.wanted
    } else {
        audio.len() as int
    };
    audio.subrange(plan.start as int, end)
}

/// What the player asks for is what it gets: the bytes of the audio from the first to the
/// last one asked for, described as those; and the whole audio where no range is asked for.
pub proof fn asked_audio_is_served(audio: Seq<u8>, range: Option<Seq<char>>)
    requires
        audio.len() <= u64::MAX,
    ensures
        ({
            let plan = served(range, audio.len() as u64);
            let asked = match range {
                Some(value) => asked_range(value, audio.len() as int),
                None => None,
            };
            match asked {
                Some((start, end)) => {
                    &&& status_of(plan) == 206
                    &&& start <= end ==> read_by(plan, audio) == audio.subrange(start, end + 1)
                        && range_text(
                        plan.start as int,
                        read_by(plan, audio).len() as int,
                        audio.len() as int,
                    ) == "bytes "@ + decimal(start as nat) + "-"@ + decimal(end as nat) + "/"@
                        + decimal(audio.len())
                },
                None => status_of(plan) == 200 && read_by(plan, audio) == audio,
            }
        }),
{
    let plan = served(range, audio.len() as u64);
    if let Some(value) = range {
        answered_range_is_in_the_file(value, audio.len() as int);
    }
    if !plan.partial {
        assert(read_by(plan, audio) =~= audio);
    }
}

/// Whether a path lies in one of the folders.
pub open spec fn within_any(path: Seq<char>, roots: Seq<Seq<char>>) -> bool {
    exists|i: int| 0 <= i < roots.len() && is_within(path, #[trigger] roots[i])
}

pub fn inside_any(path: &str, roots: &Vec<String>) -> (inside: bool)
    ensures
        inside == within_any(path@, texts(roots@)),
{
    let mut index: usize = 0;
    while index < roots.len()
        invariant
            index <= roots@.len(),
            forall|i: int| 0 <= i < index ==> !is_within(path@, #[trigger] texts(roots@)[i]),
        decreases roots@.len() - index,
    {
        assert(texts(roots@)[index as int] == roots@[index as int]@);
        if within(path, roots[index].as_str()) {
            return true;
        }
        index += 1;
    }
    false
}

/// Whether a file may be served, from its resolved path: a file, audio, and inside a
/// recording folder.
pub fn allowed_recording(path: &str, is_file: bool, roots: &Vec<String>) -> (allowed: Result<
    (),
    &'static str,
>)
    ensures
        ({
            let audio = lower_extension(path@) matches Some(found) && is_audio_extension(found);
            match allowed {
                Ok(()) => is_file && audio && within_any(path@, texts(roots@)),
                Err(reason) => if !is_file {
                    reason@ == "Not a file"@
                } else if !audio {
                    reason@ == "Not an audio file"@
                } else {
                    !within_any(path@, texts(roots@)) && reason@ == "Outside the recording folders"@
                },
            }
        }),
{
    if !is_file {
        return Err("Not a file");
    }
    if !is_audio(path) {
        return Err("Not an audio file");
    }
    if inside_any(path, roots) {
        Ok(())
    } else {
        Err("Outside the recording folders")
    }
}

/// Why a request is not answered.
#[derive(Clone, Copy, Debug)]
pub enum Refusal {
    /// The path cannot be read.
    Unreadable,
    /// The file may not be served.
    Forbidden(&'static str),
    /// The file could not be read.
    Failed,
}

impl Refusal {
    pub open spec fn code(self) -> int {
        match self {
            Refusal::Unreadable => 400,
            Refusal::Forbidden(_) => 403,
            Refusal::Failed => 500,
        }
    }

    pub open spec fn words(self) -> Seq<char> {
        match self {
            Refusal::Unreadable => "Not a readable path"@,
            Refusal::Forbidden(reason) => reason@,
            Refusal::Failed => "Could not read the recording"@,
        }
    }

    /// The status and the words that a request is refused with.
    pub fn answer(self) -> (answer: (u16, &'static str))
        ensures
            answer.0 == self.code(),
            answer.1@ == self.words(),
    {
        match self {
            Refusal::Unreadable => (400, "Not a readable path"),
            Refusal::Forbidden(reason) => (403, reason),
            Refusal::Failed => (500, "Could not read the recording"),
        }
    }
}

/// What there is to play of a meeting, from its resolved folder and the names of what that
/// holds: the recording, or nothing. A folder that is blank or not there has nothing; one
/// outside the recording folders is refused.
pub fn meeting_playback_file(
    asked: &str,
    resolved: Option<&str>,
    names: &Vec<String>,
    roots: &Vec<String>,
) -> (file: Result<Option<String>, String>)
    ensures
        ({
            let there = trimmed(asked@).len() > 0 && resolved is Some;
            match file {
                Ok(None) => !there || (within_any(resolved->0@, texts(roots@))
                    && holds_no_recording(texts(names@))),
                Ok(Some(found)) => {
                    &&& there
                    &&& within_any(resolved->0@, texts(roots@))
                    &&& exists|name: Seq<char>| #[trigger]
                        is_recording_in(texts(names@), name) && found@ == inside(
                            resolved->0@,
                            name,
                        )
                },
                Err(reason) => {
                    &&& there
                    &&& !within_any(resolved->0@, texts(roots@))
                    &&& reason@ == "That folder is not a recording folder"@
                },
            }
        }),
{
    if trim(&chars_of(asked)).len() == 0 {
        return Ok(None);
    }
    match resolved {
        Some(folder) => {
            if !inside_any(folder, roots) {
                return Err("That folder is not a recording folder".to_owned());
            }
            match find_audio_file(folder, names) {
                Ok(found) => Ok(Some(found)),
                Err(_) => Ok(None),
            }
        },
        None => Ok(None),
    }
}

/// A percent sign with two hexadecimal digits behind it, in whatever case, is the byte that
/// they write; a byte that is no percent sign is itself, and each is read apart from what
/// follows. Two bytes that write no number make the whole unreadable.
pub proof fn escapes_are_read_one_by_one(first: u8, second: u8, rest: Seq<u8>)
    ensures
        first != 37 ==> unescaped(seq![first] + rest) == match unescaped(rest) {
            Some(plain) => Some(seq![first] + plain),
            None => None,
        },
        unescaped(seq![37u8]) == Some(seq![37u8]),
        first != 37 ==> unescaped(seq![37u8, first]) == Some(seq![37u8, first]),
        ({
            let high = if 48 <= first <= 57 {
                first - 48
            } else if 65 <= first <= 70 {
                first - 65 + 10
            } else if 97 <= first <= 102 {
                first - 97 + 10
            } else if first == 43 {
                0
            } else {
                -1
            };
            let low = if 48 <= second <= 57 {
                second - 48
            } else if 65 <= second <= 70 {
                second - 65 + 10
            } else if 97 <= second <= 102 {
                second - 97 + 10
            } else {
                -1
            };
            let read = unescaped(seq![37u8, first, second] + rest);
            &&& high < 0 || low < 0 ==> read is None
            &&& high >= 0 && low >= 0 && unescaped(rest) is Some ==> read is Some
                && read->0.len() == unescaped(rest)->0.len() + 1 && read->0[0] == 16 * high + low
                && read->0.drop_first() == unescaped(rest)->0
            &&& unescaped(rest) is None ==> read is None
        }),
{
    let whole = seq![first] + rest;
    assert(whole.drop_first() =~= rest);
    if first != 37 {
        assert(whole[0] == first);
    }
    let three = seq![37u8, first, second] + rest;
    assert(three.skip(3) =~= rest);
    assert(three[0] == 37 && three[1] == first && three[2] == second);
    if let Some(plain) = unescaped(rest) {
        if let Some(byte) = escaped_byte(first, second) {
            assert((seq![byte] + plain).drop_first() =~= plain);
        }
    }
    let nothing = Seq::<u8>::empty();
    let one = seq![37u8];
    assert(one.drop_first() =~= nothing);
    assert(unescaped(nothing) == Some(nothing));
    assert(unescaped(one) == Some(seq![37u8] + nothing));
    assert(seq![37u8] + nothing =~= one);
    let two = seq![37u8, first];
    let last = seq![first];
    assert(two.drop_first() =~= last);
    assert(last.drop_first() =~= nothing);
    assert(unescaped(last) == Some(seq![first] + nothing));
    assert(seq![first] + nothing =~= last);
    assert(seq![37u8] + last =~= two);
}

/// A range is answered only where the request names bytes, and one range of them, with a
/// hyphen; asking for no byte at the end is asking for the last one.
pub proof fn only_a_single_range_is_answered(value: Seq<char>, length: int)
    requires
        length > 0,
    ensures
        asked_range(value, length) is Some ==> starts_with(trimmed(value), "bytes="@)
            && !trimmed(value).skip(6).contains(',') && trimmed(value).skip(6).contains('-'),
        asked_range(written_range(Seq::empty(), decimal(0)), length) == Some(
            (length - 1, length - 1),
        ),
{
    reveal_strlit("bytes=");
    let ranges = trimmed(value).skip(6);
    if asked_range(value, length) is Some && !ranges.contains('-') {
        assert forall|i: int| 0 <= i < ranges.len() implies ranges[i] != '-' by {
            assert(ranges.contains(ranges[i]));
        }
        lemma_no_hyphen(ranges);
    }
    lemma_decimal_is_digits(0);
    written_number_reads_back(0);
    lemma_written_range(Seq::empty(), decimal(0), length);
}

/// The player is told what it is given: what is said to be MP4 is named so, and so on; what is
/// named otherwise is said to be nothing but bytes.
pub proof fn player_is_told_what_it_is_given(found: Seq<char>)
    ensures
        media_type(None) == "application/octet-stream"@,
        media_type(Some(found)) == "audio/mp4"@ <==> found == "mp4"@ || found == "m4a"@,
        media_type(Some(found)) == "audio/flac"@ <==> found == "flac"@,
        media_type(Some(found)) == "audio/wav"@ <==> found == "wav"@,
        media_type(Some(found)) == "audio/mpeg"@ <==> found == "mp3"@,
        media_type(Some(found)) == "audio/ogg"@ <==> found == "ogg"@ || found == "oga"@,
        media_type(Some(found)) == "audio/webm"@ <==> found == "webm"@,
        media_type(Some(found)) == "audio/aac"@ <==> found == "aac"@,
        starts_with(media_type(Some(found)), "audio/"@) || media_type(Some(found))
            == "application/octet-stream"@,
{
    reveal_strlit("mp4");
    reveal_strlit("m4a");
    reveal_strlit("flac");
    reveal_strlit("wav");
    reveal_strlit("mp3");
    reveal_strlit("ogg");
    reveal_strlit("oga");
    reveal_strlit("webm");
    reveal_strlit("aac");
    reveal_strlit("audio/");
    reveal_strlit("audio/mp4");
    reveal_strlit("audio/flac");
    reveal_strlit("audio/wav");
    reveal_strlit("audio/mpeg");
    reveal_strlit("audio/ogg");
    reveal_strlit("audio/webm");
    reveal_strlit("audio/aac");
    reveal_strlit("application/octet-stream");
    assert("audio/mp4"@[7] == 'p' && "audio/mp4"@.len() == 9);
    assert("audio/wav"@[7] == 'a' && "audio/wav"@[6] == 'w' && "audio/wav"@.len() == 9);
    assert("audio/ogg"@[7] == 'g' && "audio/ogg"@.len() == 9);
    assert("audio/aac"@[7] == 'a' && "audio/aac"@[6] == 'a' && "audio/aac"@.len() == 9);
    assert("audio/flac"@[6] == 'f' && "audio/flac"@.len() == 10);
    assert("audio/mpeg"@[6] == 'm' && "audio/mpeg"@.len() == 10);
    assert("audio/webm"@[6] == 'w' && "audio/webm"@.len() == 10);
    assert("mp4"@[1] == 'p' && "mp4"@[2] == '4' && "mp4"@.len() == 3);
    assert("m4a"@[1] == '4' && "m4a"@.len() == 3);
    assert("wav"@[0] == 'w' && "wav"@.len() == 3);
    assert("mp3"@[1] == 'p' && "mp3"@[2] == '3' && "mp3"@.len() == 3);
    assert("ogg"@[0] == 'o' && "ogg"@[2] == 'g' && "ogg"@.len() == 3);
    assert("oga"@[0] == 'o' && "oga"@[2] == 'a' && "oga"@.len() == 3);
    assert("aac"@[0] == 'a' && "aac"@.len() == 3);
    assert("flac"@[0] == 'f' && "flac"@.len() == 4);
    assert("webm"@[0] == 'w' && "webm"@.len() == 4);
    assert("mp4"@[0] == 'm' && "m4a"@[0] == 'm' && "mp3"@[0] == 'm');
    let start = "audio/"@;
    assert("audio/mp4"@.take(6) =~= start);
    assert("audio/flac"@.take(6) =~= start);
    assert("audio/wav"@.take(6) =~= start);
    assert("audio/mpeg"@.take(6) =~= start);
    assert("audio/ogg"@.take(6) =~= start);
    assert("audio/webm"@.take(6) =~= start);
    assert("audio/aac"@.take(6) =~= start);
    assert("application/octet-stream"@.len() == 24);
}

/// A path lies in one of the folders as soon as one of them holds it, whichever it is, and
/// what is put inside such a folder does too.
pub proof fn one_folder_that_holds_it_is_enough(
    roots: Seq<Seq<char>>,
    index: int,
    name: Seq<char>,
)
    requires
        0 <= index < roots.len(),
        roots[index].len() > 0,
        crate::paths::plain_name(name),
    ensures
        within_any(inside(roots[index], name), roots),
        !within_any(inside(roots[index], name), Seq::empty()),
{
    crate::paths::joined_path_is_one_deeper(roots[index], name);
    assert(is_within(inside(roots[index], name), roots[index]));
}

/// What a request carries is its path without the slash before it.
pub proof fn slash_is_taken_off(rest: Seq<u8>)
    ensures
        carried(seq![47u8] + rest) == rest,
        rest.len() > 0 && rest[0] != 47 ==> carried(rest) == rest,
{
    assert((seq![47u8] + rest).drop_first() =~= rest);
}

/// A request that cannot be read is a bad one, a file that may not be served is forbidden, with
/// the reason, and a file that could not be read is a failure of ours.
pub proof fn refusals_are_told_apart(refusal: Refusal)
    ensures
        refusal.code() == 400 <==> refusal is Unreadable,
        refusal.code() == 403 <==> refusal is Forbidden,
        refusal.code() == 500 <==> refusal is Failed,
        refusal matches Refusal::Forbidden(reason) ==> refusal.words() == reason@,
{
}

} // verus!
