//! Recordings on disk that the library does not know about.

use crate::common::sum_of;
use crate::json::{field_of, find_member, parse_json, parsed_json, Json};
use crate::moments::Moment;
use crate::paths::{inside, join, name_extended};
use crate::streaming_encoder::{partial_path_for, PARTIAL_EXT};
use crate::text::{
    chars_of, decimal, decimal_text, joined, text_of, texts, trim, trimmed,
};
use vstd::prelude::*;

verus! {

/// Left in a folder when the owner chose not to restore it.
pub const DISMISSED_MARKER: &'static str = ".restore-dismissed";

/// The bits of the first double-precision number that is not finite.
pub const INFINITE_BITS_64: u64 = 0x7ff0_0000_0000_0000;

/// The tracks a recording is made of, in the order they are worth probing.
pub open spec fn track_name(index: int) -> Seq<char> {
    if index == 0 {
        "audio.mp4"@
    } else if index == 1 {
        "mic.mp4"@
    } else {
        "system.mp4"@
    }
}

fn track_text(index: usize) -> (name: &'static str)
    ensures
        name@ == track_name(index as int),
{
    if index == 0 {
        "audio.mp4"
    } else if index == 1 {
        "mic.mp4"
    } else {
        "system.mp4"
    }
}

/// How much there is of a track: under its final name, and under its temporary one.
#[derive(Clone, Copy, Debug, PartialEq, Eq, Structural)]
pub struct TrackSize {
    pub finished: u64,
    pub partial: u64,
}

/// Where a track is on disk: the finished file, or the one still under its temporary name.
pub open spec fn track_file(folder: Seq<char>, index: int, size: TrackSize) -> Option<Seq<char>> {
    let finished = inside(folder, track_name(index));
    if size.finished > 0 {
        Some(finished)
    } else if size.partial > 0 {
        Some(name_extended(finished, "."@ + PARTIAL_EXT@))
    } else {
        None
    }
}

/// The first `upto` tracks that are there.
pub open spec fn tracks_there(folder: Seq<char>, sizes: Seq<TrackSize>, upto: int) -> Seq<Seq<char>>
    decreases upto,
{
    if upto <= 0 {
        Seq::empty()
    } else {
        let before = tracks_there(folder, sizes, upto - 1);
        match track_file(folder, upto - 1, sizes[upto - 1]) {
            Some(path) => before.push(path),
            None => before,
        }
    }
}

/// Each track as it is on disk. `sizes` gives, track by track, how much there is of it; an
/// empty file counts as none.
pub fn track_files(folder: &str, sizes: &Vec<TrackSize>) -> (files: Vec<String>)
    requires
        sizes@.len() == 3,
    ensures
        texts(files@) == tracks_there(folder@, sizes@, 3),
{
    let mut files: Vec<String> = Vec::new();
    let mut index: usize = 0;
    assert(texts(files@) =~= tracks_there(folder@, sizes@, 0));
    while index < 3
        invariant
            index <= 3,
            sizes@.len() == 3,
            texts(files@) == tracks_there(folder@, sizes@, index as int),
        decreases 3 - index,
    {
        let finished = join(folder, track_text(index));
        let ghost had = files@;
        if sizes[index].finished > 0 {
            files.push(finished);
            assert(texts(files@) =~= texts(had).push(finished@));
        } else if sizes[index].partial > 0 {
            let partial = partial_path_for(finished.as_str());
            files.push(partial);
            assert(texts(files@) =~= texts(had).push(partial@));
        }
        index += 1;
    }
    files
}

/// Whether a folder holds a recording at all: a track, or pieces of an older one.
pub fn looks_like_recording(tracks: &Vec<String>, has_pieces: bool) -> (recording: bool)
    ensures
        recording == (tracks@.len() > 0 || has_pieces),
{
    tracks.len() > 0 || has_pieces
}

/// What the recovery dialog is told about a recording that has only audio. The duration is
/// in seconds, by its bits.
#[derive(Debug, Clone, Copy, PartialEq, Eq, Structural)]
pub struct AudioOnly {
    /// Bytes across the tracks, finished or not.
    pub size_bytes: u64,
    pub duration_seconds: Option<u64>,
    /// The audio opens with the key this archive holds now.
    pub readable: bool,
}

/// A length of time, by the bits of a double-precision number, if there is one and it is
/// more than nothing.
pub open spec fn positive_duration(bits: Option<u64>) -> Option<u64> {
    match bits {
        Some(value) => if 0 < value <= INFINITE_BITS_64 {
            Some(value)
        } else {
            None
        },
        None => None,
    }
}

/// Describes a folder with audio, or `None` when there is none. `sizes` are those of the
/// tracks that are there; the first of them decides whether the audio can be read. With the
/// archive locked an encrypted one cannot; pieces of an older recording always can.
pub fn probe(
    sizes: &Vec<u64>,
    has_pieces: bool,
    first_is_encrypted: bool,
    first_opens: bool,
    archive_open: bool,
    duration: Option<u64>,
) -> (audio: Option<AudioOnly>)
    requires
        sum_of(sizes@, sizes@.len() as int) <= u64::MAX,
    ensures
        audio == if sizes@.len() == 0 && !has_pieces {
            None
        } else {
            Some(
                AudioOnly {
                    size_bytes: sum_of(sizes@, sizes@.len() as int) as u64,
                    duration_seconds: positive_duration(duration),
                    readable: sizes@.len() == 0 || (!(first_is_encrypted && !archive_open)
                        && first_opens),
                },
            )
        },
{
    if sizes.len() == 0 && !has_pieces {
        return None;
    }
    let size_bytes: u64 = crate::common::dir_size_bytes(sizes);
    let readable = if sizes.len() == 0 {
        true
    } else if first_is_encrypted && !archive_open {
        false
    } else {
        first_opens
    };
    let duration_seconds = match duration {
        Some(value) => if 0 < value && value <= INFINITE_BITS_64 {
            Some(value)
        } else {
            None
        },
        None => None,
    };
    Some(AudioOnly { size_bytes, duration_seconds, readable })
}

/// How a key file answered a secret.
#[derive(Debug)]
pub enum Unlocking {
    Opened,
    WrongSecret,
    Failed(String),
}

/// What is done next to open another archive's key file.
#[derive(Debug)]
pub enum KeyStep {
    TryPassword,
    TryRecoveryCode,
    Opened,
    Fail(String),
}

/// The number that a description gives as the length of its recording.
pub open spec fn described_length(metadata: Seq<char>) -> Option<Seq<char>> {
    match parsed_json(metadata) {
        Some(tree) => match field_of(tree, "duration_seconds"@) {
            Some(Json::Number(written)) => Some(written@),
            _ => None,
        },
        None => None,
    }
}

/// The length of a recording as its description writes it, if it gives one that is a number.
pub fn described_duration(metadata: &str) -> (number: Option<String>)
    ensures
        match number {
            Some(text) => described_length(metadata@) == Some(text@),
            None => described_length(metadata@) is None,
        },
{
    match parse_json(metadata) {
        Some(Json::Object(members, _)) => match find_member(
            &members,
            &chars_of("duration_seconds"),
        ) {
            Some(Json::Number(written)) => Some(written.clone()),
            _ => None,
        },
        _ => None,
    }
}

/// What is done once the key file was read. Its count of failed attempts guards that
/// archive's lock screen and is not honoured here.
pub fn key_file_read(loaded: Result<bool, String>) -> (step: KeyStep)
    ensures
        match loaded {
            Ok(true) => step is TryPassword,
            Ok(false) => step matches KeyStep::Fail(reason) && reason@
                == "There is no key file at that path"@,
            Err(error) => step matches KeyStep::Fail(reason) && reason@
                == "Could not read the key file: "@ + error@,
        },
{
    match loaded {
        Ok(true) => KeyStep::TryPassword,
        Ok(false) => KeyStep::Fail("There is no key file at that path".to_owned()),
        Err(error) => KeyStep::Fail(joined("Could not read the key file: ", error.as_str())),
    }
}

/// What is done once the secret was tried as a password: a wrong one may still be the
/// recovery code.
pub fn password_tried(answer: Unlocking) -> (step: KeyStep)
    ensures
        match answer {
            Unlocking::Opened => step is Opened,
            Unlocking::WrongSecret => step is TryRecoveryCode,
            Unlocking::Failed(error) => step == KeyStep::Fail(error),
        },
{
    match answer {
        Unlocking::Opened => KeyStep::Opened,
        Unlocking::WrongSecret => KeyStep::TryRecoveryCode,
        Unlocking::Failed(error) => KeyStep::Fail(error),
    }
}

/// What is done once the secret was tried as a recovery code.
pub fn recovery_code_tried(opened: bool) -> (step: KeyStep)
    ensures
        opened ==> step is Opened,
        !opened ==> (step matches KeyStep::Fail(reason) && reason@
            == "The password or recovery code does not open this key file"@),
{
    if opened {
        KeyStep::Opened
    } else {
        KeyStep::Fail("The password or recovery code does not open this key file".to_owned())
    }
}

/// What touching a recording needs: that nothing is being recorded, and that the archive is
/// open or has no password.
pub fn may_touch(is_active: bool, recording: bool, protected: bool, unlocked: bool) -> (allowed:
    Result<(), String>)
    ensures
        match allowed {
            Ok(()) => !is_active && !recording && (!protected || unlocked),
            Err(reason) => if is_active || recording {
                reason@ == "A recording is running"@
            } else {
                protected && !unlocked && reason@ == "The archive is locked"@
            },
        },
{
    if is_active || recording {
        return Err("A recording is running".to_owned());
    }
    if protected && !unlocked {
        return Err("The archive is locked".to_owned());
    }
    Ok(())
}

/// Whether a recording may be made into a meeting: that it may be touched, and that the
/// library does not have it.
pub fn restore_recording_without_meeting(
    is_active: bool,
    recording: bool,
    protected: bool,
    unlocked: bool,
    already_saved: bool,
) -> (allowed: Result<(), String>)
    ensures
        match allowed {
            Ok(()) => !is_active && !recording && (!protected || unlocked) && !already_saved,
            Err(reason) => if is_active || recording {
                reason@ == "A recording is running"@
            } else if protected && !unlocked {
                reason@ == "The archive is locked"@
            } else {
                already_saved && reason@ == "This recording is already in the library"@
            },
        },
{
    match may_touch(is_active, recording, protected, unlocked) {
        Ok(_) => {},
        Err(reason) => {
            return Err(reason);
        },
    }
    if already_saved {
        return Err("This recording is already in the library".to_owned());
    }
    Ok(())
}

/// Which key a recording of another archive is brought under: this archive's, or none where
/// it has no password.
pub fn rekey_target(key_held: bool, protected: bool) -> (with_key: Result<bool, String>)
    ensures
        match with_key {
            Ok(sealed) => sealed == key_held && (key_held || !protected),
            Err(reason) => !key_held && protected && reason@ == "The archive is locked"@,
        },
{
    if key_held {
        Ok(true)
    } else if !protected {
        Ok(false)
    } else {
        Err("The archive is locked".to_owned())
    }
}

/// Whether a recording of another archive can be brought over at all: one of its tracks is
/// encrypted, and the key opens it.
pub fn foreign_recording(has_sealed_track: bool, key_opens: bool) -> (allowed: Result<(), String>)
    ensures
        match allowed {
            Ok(()) => has_sealed_track && key_opens,
            Err(reason) => if !has_sealed_track {
                reason@ == "This recording is not encrypted"@
            } else {
                !key_opens && reason@ == "This key does not open this recording"@
            },
        },
{
    if !has_sealed_track {
        Err("This recording is not encrypted".to_owned())
    } else if !key_opens {
        Err("This key does not open this recording".to_owned())
    } else {
        Ok(())
    }
}

/// What is said of bringing a recording over: files that failed were left as they were.
pub fn rekey_outcome(failed: usize) -> (outcome: Result<(), String>)
    ensures
        match outcome {
            Ok(()) => failed == 0,
            Err(reason) => failed > 0 && reason@ == decimal(failed as nat)
                + " file(s) could not be re-encrypted and were left as they were"@,
        },
{
    if failed == 0 {
        return Ok(());
    }
    let number = text_of(&decimal_text(failed as u64));
    Err(
        joined(
            number.as_str(),
            " file(s) could not be re-encrypted and were left as they were",
        ),
    )
}

/// A recording made into a meeting again.
#[derive(Debug, Clone)]
pub struct RestoredRecording {
    pub meeting_id: String,
    pub folder_path: String,
}

/// What a restored meeting is called: as its journal says, unless that is blank. Also says
/// whether the journal said so; a title from elsewhere may be replaced by a generated one.
pub fn restored_title(journal: Option<&str>, fallback: &str) -> (title: (String, bool))
    ensures
        ({
            let kept = journal matches Some(text) && trimmed(text@).len() > 0;
            &&& title.1 == kept
            &&& title.0@ == if kept {
                trimmed(journal->0@)
            } else {
                fallback@
            }
        }),
{
    match journal {
        Some(text) => {
            let inner = trim(&chars_of(text));
            if inner.len() > 0 {
                return (text_of(&inner), true);
            }
        },
        None => {},
    }
    (fallback.to_owned(), false)
}

/// The moment that `chrono` reads from a text after RFC 3339, in universal time; nothing
/// where it cannot.
pub uninterp spec fn rfc3339_moment(text: Seq<char>) -> Option<Moment>;

/// The moment that a text after RFC 3339 says.
///
/// Calls `chrono::DateTime::parse_from_rfc3339`. Claimed: the moment depends on the text
/// alone, and its nanoseconds are fewer than those of a second and a leap second together.
/// Which texts can be read is left unsaid.
#[verifier::external_body]
fn parse_moment(text: &str) -> (moment: Option<Moment>)
    ensures
        moment == rfc3339_moment(text@),
        moment matches Some(found) ==> found.nanos < 2_000_000_000,
{
    match chrono::DateTime::parse_from_rfc3339(text) {
        Ok(found) => Some(
            Moment { seconds: found.timestamp(), nanos: found.timestamp_subsec_nanos() },
        ),
        Err(_) => None,
    }
}

/// When a restored recording began: as its journal says, else as its folder's description
/// says, else when the folder was made.
pub fn restored_start(
    journal: Option<Moment>,
    described: Option<Moment>,
    created: Option<Moment>,
) -> (start: Option<Moment>)
    ensures
        start == match journal {
            Some(moment) => Some(moment),
            None => match described {
                Some(moment) => Some(moment),
                None => created,
            },
        },
{
    match journal {
        Some(moment) => Some(moment),
        None => match described {
            Some(moment) => Some(moment),
            None => created,
        },
    }
}

/// When a restored recording began, from what its journal kept.
pub fn restored_start_of(
    journal: Option<&str>,
    described: Option<Moment>,
    created: Option<Moment>,
) -> (start: Option<Moment>)
    ensures
        start == match journal {
            Some(text) => match rfc3339_moment(text@) {
                Some(moment) => Some(moment),
                None => match described {
                    Some(moment) => Some(moment),
                    None => created,
                },
            },
            None => match described {
                Some(moment) => Some(moment),
                None => created,
            },
        },
{
    let kept = match journal {
        Some(text) => parse_moment(text),
        None => None,
    };
    restored_start(kept, described, created)
}

/// Whether the audio of a restored recording can be used. `opened` is how opening it went.
pub fn prepared_audio(
    recovery_failed: Option<String>,
    opened: Result<(), String>,
    looks_encrypted: bool,
) -> (ready: Result<(), String>)
    ensures
        match recovery_failed {
            Some(message) => ready == Err::<(), String>(message),
            None => match opened {
                Ok(_) => ready is Ok,
                Err(error) => if looks_encrypted {
                    ready matches Err(reason) && reason@
                        == "This recording was encrypted with a different key and cannot be opened with the current one"@
                } else {
                    ready == Err::<(), String>(error)
                },
            },
        },
{
    match recovery_failed {
        Some(message) => Err(message),
        None => match opened {
            Ok(_) => Ok(()),
            Err(error) => if looks_encrypted {
                Err(
                    "This recording was encrypted with a different key and cannot be opened with the current one".to_owned(),
                )
            } else {
                Err(error)
            },
        },
    }
}

/// A track is where it was finished; one that was not is under the same name with the
/// temporary ending behind it, and an empty file is none.
pub proof fn track_is_where_it_was_written(folder: Seq<char>, index: int, size: TrackSize)
    requires
        crate::paths::ends_with_a_name(folder),
        0 <= index < 3,
    ensures
        size.finished > 0 ==> track_file(folder, index, size) == Some(
            inside(folder, track_name(index)),
        ),
        size.finished == 0 && size.partial > 0 ==> track_file(folder, index, size) == Some(
            inside(folder, track_name(index)) + ".part"@,
        ),
        size.finished == 0 && size.partial == 0 ==> track_file(folder, index, size) is None,
{
    reveal_strlit("audio.mp4");
    reveal_strlit("mic.mp4");
    reveal_strlit("system.mp4");
    reveal_strlit(".");
    reveal_strlit("part");
    reveal_strlit(".part");
    let name = track_name(index);
    assert(name.len() > 2 && crate::paths::plain_name(name)) by {
        assert("audio.mp4"@.len() == 9 && "mic.mp4"@.len() == 7 && "system.mp4"@.len() == 10);
    }
    assert("."@ + PARTIAL_EXT@ =~= ".part"@);
    crate::paths::name_is_made_longer(folder, name, ".part"@);
}

/// The tracks are listed in one order, the mixed one before the microphone and that before
/// system audio, and each that is there is on the list.
pub proof fn tracks_are_listed_in_order(folder: Seq<char>, sizes: Seq<TrackSize>)
    requires
        sizes.len() == 3,
        forall|i: int| 0 <= i < 3 ==> (#[trigger] sizes[i]).finished > 0,
    ensures
        tracks_there(folder, sizes, 3) == seq![
            inside(folder, "audio.mp4"@),
            inside(folder, "mic.mp4"@),
            inside(folder, "system.mp4"@),
        ],
{
    reveal_with_fuel(tracks_there, 4);
    assert(sizes[0].finished > 0 && sizes[1].finished > 0 && sizes[2].finished > 0);
    assert(tracks_there(folder, sizes, 3) =~= seq![
        inside(folder, "audio.mp4"@),
        inside(folder, "mic.mp4"@),
        inside(folder, "system.mp4"@),
    ]);
}

/// Whether one track is listed rests on that track alone: with nothing of it the list is that
/// of the others, and with something of it one longer.
pub proof fn each_track_counts_for_itself(folder: Seq<char>, sizes: Seq<TrackSize>, index: int)
    requires
        0 <= index < sizes.len(),
    ensures
        ({
            let before = tracks_there(folder, sizes, index);
            let after = tracks_there(folder, sizes, index + 1);
            let there = sizes[index].finished > 0 || sizes[index].partial > 0;
            &&& !there ==> after == before
            &&& there ==> after.len() == before.len() + 1 && after.take(before.len() as int)
                == before
        }),
        tracks_there(folder, sizes, 0).len() == 0,
{
    let before = tracks_there(folder, sizes, index);
    let after = tracks_there(folder, sizes, index + 1);
    if sizes[index].finished > 0 || sizes[index].partial > 0 {
        assert(after.take(before.len() as int) =~= before);
    }
}

/// A length counts if it is more than nothing: no negative number does, nor zero of either
/// sign, nor what is no number.
pub proof fn only_a_positive_length_counts(bits: u64)
    ensures
        positive_duration(None) is None,
        positive_duration(Some(bits)) is Some <==> 0 < bits <= 0x7ff0_0000_0000_0000,
        positive_duration(Some(bits)) matches Some(kept) ==> kept == bits,
{
}

} // verus!
