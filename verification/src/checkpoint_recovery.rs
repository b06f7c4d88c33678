//! Recovering a recording that was interrupted.
//!
//! A recording that was encoded as it went only lacks its final name. An older one was
//! written in pieces, which are joined.

use crate::paths::{extension, inside, join, path_extension, same_path};
use crate::sorting::{in_text_order, sorted_texts};
use crate::streaming_encoder::{args, finished_name, is_unfinished, EncodeFormat};
use crate::text::{
    chars_of, decimal, decimal_text, has_prefix, holds_text, joined, push_chars, same_text,
    stands_at, starts_with, text_of, texts,
};
use vstd::prelude::*;

verus! {

/// How long a piece of an older recording is, in seconds.
pub const PIECE_SECONDS: u64 = 30;

/// The extensions of pieces.
pub open spec fn is_piece_extension(found: Seq<char>) -> bool {
    found == "flac"@ || found == "mp4"@
}

/// Whether a file is a piece of a recording.
pub fn is_checkpoint_file(path: &str) -> (piece: bool)
    ensures
        piece == is_piece(path@),
{
    match path_extension(path) {
        Some(found) => {
            let text = text_of(&found);
            same_text(text.as_str(), "flac") || same_text(text.as_str(), "mp4")
        },
        None => false,
    }
}

/// A text with every apostrophe closed, escaped and opened again.
pub open spec fn quoted(text: Seq<char>) -> Seq<char>
    decreases text.len(),
{
    if text.len() == 0 {
        Seq::empty()
    } else {
        quoted(text.drop_last()) + if text.last() == '\'' {
            "'\\''"@
        } else {
            seq![text.last()]
        }
    }
}

/// The line that names a file in the list that pieces are joined from.
pub fn ffconcat_file_line(path: &str) -> (line: String)
    ensures
        line@ == "file '"@ + quoted(path@) + "'\n"@,
{
    let chars = chars_of(path);
    let escape = chars_of("'\\''");
    let mut line = chars_of("file '");
    let ghost head = line@;
    let mut index: usize = 0;
    assert(head + quoted(chars@.take(0)) =~= head);
    while index < chars.len()
        invariant
            index <= chars@.len(),
            escape@ == "'\\''"@,
            line@ == head + quoted(chars@.take(index as int)),
        decreases chars@.len() - index,
    {
        let c = chars[index];
        let ghost before = quoted(chars@.take(index as int));
        assert(chars@.take(index + 1).drop_last() =~= chars@.take(index as int));
        if c == '\'' {
            push_chars(&mut line, &escape);
            assert(line@ =~= head + (before + "'\\''"@));
        } else {
            line.push(c);
            assert(line@ =~= head + (before + seq![c]));
        }
        index += 1;
    }
    assert(chars@.take(chars@.len() as int) =~= chars@);
    push_chars(&mut line, &chars_of("'\n"));
    text_of(&line)
}

/// The lines for the first `upto` files.
pub open spec fn list_of(files: Seq<Seq<char>>, upto: int) -> Seq<char>
    decreases upto,
{
    if upto <= 0 {
        Seq::empty()
    } else {
        list_of(files, upto - 1) + ("file '"@ + quoted(files[upto - 1]) + "'\n"@)
    }
}

/// The list that pieces are joined from, from their real paths.
pub fn concat_list(files: &Vec<String>) -> (content: String)
    ensures
        content@ == list_of(texts(files@), files@.len() as int),
{
    let mut content = String::new();
    let mut index: usize = 0;
    assert(content@ =~= list_of(texts(files@), 0));
    while index < files.len()
        invariant
            index <= files@.len(),
            content@ == list_of(texts(files@), index as int),
        decreases files@.len() - index,
    {
        assert(texts(files@)[index as int] == files@[index as int]@);
        let line = ffconcat_file_line(files[index].as_str());
        content.append(line.as_str());
        index += 1;
    }
    content
}

/// How the pieces of a list are joined: decoded, and encoded once over the whole
/// recording.
pub fn concat_args(list_file: &str, format: &EncodeFormat, output: &str) -> (list: Vec<String>)
    ensures
        texts(list@) == seq!["-f"@, "concat"@, "-safe"@, "0"@, "-i"@, list_file@] + args(
            format.codec_args@,
        ) + seq!["-f"@, "mp4"@, "-y"@, output@],
{
    let mut list: Vec<String> = Vec::new();
    list.push("-f".to_owned());
    list.push("concat".to_owned());
    list.push("-safe".to_owned());
    list.push("0".to_owned());
    list.push("-i".to_owned());
    list.push(list_file.to_owned());
    let ghost head = seq!["-f"@, "concat"@, "-safe"@, "0"@, "-i"@, list_file@];
    assert(texts(list@) =~= head);
    let ghost codec = args(format.codec_args@);
    let mut index: usize = 0;
    assert(head + codec.take(0) =~= head);
    while index < format.codec_args.len()
        invariant
            index <= format.codec_args@.len(),
            codec == args(format.codec_args@),
            texts(list@) == head + codec.take(index as int),
        decreases format.codec_args@.len() - index,
    {
        let arg: &'static str = format.codec_args[index];
        assert(codec[index as int] == arg@);
        let ghost had = list@;
        list.push(arg.to_owned());
        assert(texts(list@) =~= texts(had).push(arg@));
        assert(codec.take(index + 1) =~= codec.take(index as int).push(arg@));
        index += 1;
        assert(texts(list@) =~= head + codec.take(index as int));
    }
    assert(codec.take(codec.len() as int) =~= codec);
    list.push("-f".to_owned());
    list.push("mp4".to_owned());
    list.push("-y".to_owned());
    list.push(output.to_owned());
    assert(texts(list@) =~= head + codec + seq!["-f"@, "mp4"@, "-y"@, output@]);
    list
}

/// A file of a folder: its name and its size.
#[derive(Debug)]
pub struct FolderFile {
    pub name: String,
    pub size: u64,
}

/// One of the files holds audio under a name that is not its final one.
pub open spec fn holds_unfinished(files: Seq<FolderFile>) -> bool {
    exists|i: int|
        0 <= i < files.len() && is_unfinished((#[trigger] files[i]).name@) && files[i].size > 0
}

/// Whether a recording left tracks that were never given their final name.
pub fn has_unfinished_tracks(files: &Vec<FolderFile>) -> (found: bool)
    ensures
        found == holds_unfinished(files@),
{
    let mut index: usize = 0;
    while index < files.len()
        invariant
            index <= files@.len(),
            forall|i: int|
                0 <= i < index ==> !(is_unfinished((#[trigger] files@[i]).name@) && files@[i].size
                    > 0),
        decreases files@.len() - index,
    {
        if files[index].size > 0 {
            match finished_name(files[index].name.as_str()) {
                Some(_) => {
                    assert(is_unfinished(files@[index as int].name@));
                    return true;
                },
                None => {},
            }
        }
        index += 1;
    }
    false
}

/// One of the files is a piece.
pub open spec fn holds_piece(files: Seq<String>) -> bool {
    exists|i: int| 0 <= i < files.len() && is_piece((#[trigger] files[i])@)
}

fn any_piece(files: &Vec<String>) -> (found: bool)
    ensures
        found == holds_piece(files@),
{
    let mut index: usize = 0;
    while index < files.len()
        invariant
            index <= files@.len(),
            forall|i: int| 0 <= i < index ==> !is_piece((#[trigger] files@[i])@),
        decreases files@.len() - index,
    {
        if is_checkpoint_file(files[index].as_str()) {
            return true;
        }
        index += 1;
    }
    false
}

/// Whether there is audio to recover: tracks that only lack their name, or pieces. `pieces`
/// holds the files of the folder that pieces are kept in, if there is one.
pub fn has_audio_checkpoints(files: &Vec<FolderFile>, pieces: Option<&Vec<String>>) -> (found:
    bool)
    ensures
        found == (holds_unfinished(files@) || (pieces matches Some(held) && holds_piece(held@))),
{
    if has_unfinished_tracks(files) {
        return true;
    }
    match pieces {
        Some(held) => any_piece(held),
        None => false,
    }
}

/// As many pieces as are expected, or all of them.
pub open spec fn first_pieces(sorted: Seq<String>, expected: Option<u32>) -> Seq<String> {
    match expected {
        Some(count) => sorted.take(count as int),
        None => sorted,
    }
}

/// A path that names a piece.
pub open spec fn is_piece(path: Seq<char>) -> bool {
    extension(path) matches Some(found) && is_piece_extension(found)
}

/// The files that are pieces.
pub open spec fn pieces_among(files: Seq<String>) -> Seq<String>
    decreases files.len(),
{
    if files.len() == 0 {
        Seq::empty()
    } else {
        let before = pieces_among(files.drop_last());
        if is_piece(files.last()@) {
            before.push(files.last())
        } else {
            before
        }
    }
}

fn only_pieces(files: Vec<String>) -> (pieces: Vec<String>)
    ensures
        pieces@ == pieces_among(files@),
{
    let ghost given = files@;
    let mut rest = files;
    let mut pieces: Vec<String> = Vec::new();
    let ghost mut done: int = 0;
    assert(given.skip(0) =~= given);
    assert(given.take(0) =~= Seq::<String>::empty());
    while rest.len() > 0
        invariant
            0 <= done <= given.len(),
            rest@ == given.skip(done),
            pieces@ == pieces_among(given.take(done)),
        decreases rest@.len(),
    {
        let file = rest.remove(0);
        assert(file == given[done]);
        assert(rest@ =~= given.skip(done + 1));
        assert(given.take(done + 1).drop_last() =~= given.take(done));
        if is_checkpoint_file(file.as_str()) {
            pieces.push(file);
        }
        proof {
            done = done + 1;
        }
    }
    assert(given.take(given.len() as int) =~= given);
    pieces
}

/// The pieces to join, in order, from the files of a folder. There have to be some, and at
/// least as many as expected; more than that are left out.
pub fn checkpoint_selection(folder: &str, files: Vec<String>, expected: Option<u32>) -> (chosen:
    Result<Vec<String>, String>)
    ensures
        ({
            let pieces = pieces_among(files@);
            match chosen {
                Ok(list) => {
                    &&& pieces.len() > 0
                    &&& exists|sorted: Seq<String>|
                        in_text_order(texts(sorted)) && sorted.to_multiset() == pieces.to_multiset()
                            && list@ == #[trigger] first_pieces(sorted, expected)
                    &&& expected matches Some(count) ==> list@.len() == count && count
                        <= pieces.len()
                    &&& expected is None ==> list@.len() == pieces.len()
                },
                Err(reason) => if pieces.len() == 0 {
                    reason@ == "No checkpoints found in "@ + folder@
                } else {
                    &&& expected matches Some(count) && pieces.len() < count && reason@ == folder@
                        + " has "@ + decimal(pieces.len()) + " checkpoints; expected at least "@
                        + decimal(count as nat)
                },
            }
        }),
{
    let pieces = only_pieces(files);
    let found: usize = pieces.len();
    if found == 0 {
        return Err(joined("No checkpoints found in ", folder));
    }
    match expected {
        Some(count) => {
            if (found as u64) < count as u64 {
                let mut reason = joined(folder, " has ");
                let held = text_of(&decimal_text(found as u64));
                reason.append(held.as_str());
                reason.append(" checkpoints; expected at least ");
                let least = text_of(&decimal_text(count as u64));
                reason.append(least.as_str());
                return Err(reason);
            }
        },
        None => {},
    }
    let mut sorted = sorted_texts(pieces);
    let ghost all = sorted@;
    match expected {
        Some(count) => {
            sorted.truncate(count as usize);
            assert(sorted@ =~= all.take(count as int));
        },
        None => {},
    }
    assert(sorted@ == first_pieces(all, expected));
    Ok(sorted)
}

/// What came of recovering a recording's audio. The length is in milliseconds in fixed
/// point, counted as in [`crate::own_speech`].
#[derive(Debug, Clone)]
pub struct AudioRecoveryStatus {
    pub status: String,
    pub chunk_count: u32,
    pub estimated_duration_ms: u128,
    pub audio_file_path: Option<String>,
    pub message: String,
}

/// The same as plain data.
pub struct StatusModel {
    pub status: Seq<char>,
    pub chunk_count: int,
    pub estimated_duration_ms: int,
    pub audio_file_path: Option<Seq<char>>,
    pub message: Seq<char>,
}

impl View for AudioRecoveryStatus {
    type V = StatusModel;

    open spec fn view(&self) -> StatusModel {
        StatusModel {
            status: self.status@,
            chunk_count: self.chunk_count as int,
            estimated_duration_ms: self.estimated_duration_ms as int,
            audio_file_path: match self.audio_file_path {
                Some(path) => Some(path@),
                None => None,
            },
            message: self.message@,
        }
    }
}

/// One of the tracks is the mixed recording.
pub open spec fn holds_path(paths: Seq<Seq<char>>, path: Seq<char>) -> bool {
    exists|i: int|
        0 <= i < paths.len() && crate::paths::components(#[trigger] paths[i])
            == crate::paths::components(path)
}

fn has_path(paths: &Vec<String>, path: &str) -> (found: bool)
    ensures
        found == holds_path(texts(paths@), path@),
{
    let mut index: usize = 0;
    while index < paths.len()
        invariant
            index <= paths@.len(),
            forall|i: int|
                0 <= i < index ==> crate::paths::components(#[trigger] texts(paths@)[i])
                    != crate::paths::components(path@),
        decreases paths@.len() - index,
    {
        assert(texts(paths@)[index as int] == paths@[index as int]@);
        if same_path(paths[index].as_str(), path) {
            return true;
        }
        index += 1;
    }
    false
}

/// What is reported where tracks only lacked their names: success if the mixed recording
/// is among them.
pub open spec fn named_status(folder: Seq<char>, tracks: Seq<Seq<char>>, mixed_ms: Option<u64>) ->
    StatusModel {
    let mixed = inside(folder, "audio.mp4"@);
    let whole = holds_path(tracks, mixed);
    StatusModel {
        status: if whole {
            "success"@
        } else {
            "partial"@
        },
        chunk_count: tracks.len() as int,
        estimated_duration_ms: match mixed_ms {
            Some(length) => if whole {
                length as int
            } else {
                0
            },
            None => 0,
        },
        audio_file_path: if whole {
            Some(mixed)
        } else {
            None
        },
        message: "Recovered "@ + decimal(tracks.len()) + " interrupted track(s)"@,
    }
}

/// The report on tracks that only lacked their names, if there were any. `mixed_ms` is the
/// length of the mixed recording, if it could be decoded.
pub fn recovered_tracks(folder: &str, tracks: &Vec<String>, mixed_ms: Option<u64>) -> (status:
    Option<AudioRecoveryStatus>)
    requires
        tracks@.len() <= u32::MAX,
    ensures
        match status {
            None => tracks@.len() == 0,
            Some(report) => tracks@.len() > 0 && report@ == named_status(
                folder@,
                texts(tracks@),
                mixed_ms,
            ),
        },
{
    if tracks.len() == 0 {
        return None;
    }
    let mixed = join(folder, "audio.mp4");
    let whole = has_path(tracks, mixed.as_str());
    let count: u32 = tracks.len() as u32;
    let number = text_of(&decimal_text(count as u64));
    let mut message = joined("Recovered ", number.as_str());
    message.append(" interrupted track(s)");
    Some(
        AudioRecoveryStatus {
            status: if whole {
                "success".to_owned()
            } else {
                "partial".to_owned()
            },
            chunk_count: count,
            estimated_duration_ms: match mixed_ms {
                Some(length) => if whole {
                    length as u128
                } else {
                    0
                },
                None => 0,
            },
            audio_file_path: if whole {
                Some(mixed)
            } else {
                None
            },
            message,
        },
    )
}

/// What is reported where there is nothing to recover, or it could not be.
pub open spec fn unrecovered_status(failed: bool, message: Seq<char>) -> StatusModel {
    StatusModel {
        status: if failed {
            "failed"@
        } else {
            "none"@
        },
        chunk_count: 0,
        estimated_duration_ms: 0,
        audio_file_path: None,
        message,
    }
}

pub fn unrecovered(failed: bool, message: String) -> (status: AudioRecoveryStatus)
    ensures
        status@ == unrecovered_status(failed, message@),
{
    AudioRecoveryStatus {
        status: if failed {
            "failed".to_owned()
        } else {
            "none".to_owned()
        },
        chunk_count: 0,
        estimated_duration_ms: 0,
        audio_file_path: None,
        message,
    }
}

/// What is reported where the mixed recording could not be joined: that there is nothing,
/// if that is why, or else that it failed.
pub open spec fn unjoined_status(reason: Seq<char>) -> StatusModel {
    unrecovered_status(!starts_with(reason, "No checkpoints"@), reason)
}

pub fn mixed_not_joined(reason: String) -> (status: AudioRecoveryStatus)
    ensures
        status@ == unjoined_status(reason@),
{
    let nothing = has_prefix(&chars_of(reason.as_str()), &chars_of("No checkpoints"));
    unrecovered(!nothing, reason)
}

/// The failures as plain data: the track and the reason.
pub open spec fn failures_of(failures: Seq<(String, String)>) -> Seq<(Seq<char>, Seq<char>)> {
    failures.map_values(|failure: (String, String)| (failure.0@, failure.1@))
}

/// The failures, each behind the name of its track, with semicolons between them.
pub open spec fn failure_list(failures: Seq<(Seq<char>, Seq<char>)>) -> Seq<char>
    decreases failures.len(),
{
    if failures.len() == 0 {
        Seq::empty()
    } else {
        failure_list(failures.drop_last()) + (if failures.len() > 1 {
            "; "@
        } else {
            Seq::empty()
        }) + (failures.last().0 + ": "@ + failures.last().1)
    }
}

/// What is reported where the mixed recording was joined from `chunk_count` pieces.
pub open spec fn joined_status(
    folder: Seq<char>,
    chunk_count: int,
    failures: Seq<(Seq<char>, Seq<char>)>,
) -> StatusModel {
    StatusModel {
        status: if failures.len() == 0 {
            "success"@
        } else {
            "partial"@
        },
        chunk_count,
        estimated_duration_ms: chunk_count * PIECE_SECONDS * 1_000_000_000,
        audio_file_path: Some(inside(folder, "audio.mp4"@)),
        message: if failures.len() == 0 {
            "Successfully recovered "@ + decimal(chunk_count as nat)
                + " audio chunks and available source tracks"@
        } else {
            "Recovered mixed audio; source-track recovery failed ("@ + failure_list(failures)
                + ")"@
        },
    }
}

fn failure_text(failures: &Vec<(String, String)>) -> (list: String)
    ensures
        list@ == failure_list(failures_of(failures@)),
{
    let ghost all = failures_of(failures@);
    let mut list = String::new();
    let mut index: usize = 0;
    assert(list@ =~= failure_list(all.take(0)));
    while index < failures.len()
        invariant
            index <= failures@.len(),
            all == failures_of(failures@),
            list@ == failure_list(all.take(index as int)),
        decreases failures@.len() - index,
    {
        let ghost before = list@;
        assert(all.take(index + 1).drop_last() =~= all.take(index as int));
        assert(all[index as int] == (failures@[index as int].0@, failures@[index as int].1@));
        if index > 0 {
            list.append("; ");
        }
        let mut entry = joined(failures[index].0.as_str(), ": ");
        entry.append(failures[index].1.as_str());
        list.append(entry.as_str());
        index += 1;
        assert(list@ =~= failure_list(all.take(index as int)));
    }
    assert(all.take(all.len() as int) =~= all);
    list
}

/// The report on a recording that was joined. `failures` names each separate track that
/// could not be, with its reason.
pub fn joined_pieces(folder: &str, chunk_count: u32, failures: &Vec<(String, String)>) -> (status:
    AudioRecoveryStatus)
    ensures
        status@ == joined_status(folder@, chunk_count as int, failures_of(failures@)),
{
    let message = if failures.len() == 0 {
        let number = text_of(&decimal_text(chunk_count as u64));
        let mut whole = joined("Successfully recovered ", number.as_str());
        whole.append(" audio chunks and available source tracks");
        whole
    } else {
        let list = failure_text(failures);
        let mut parted = joined(
            "Recovered mixed audio; source-track recovery failed (",
            list.as_str(),
        );
        parted.append(")");
        parted
    };
    AudioRecoveryStatus {
        status: if failures.len() == 0 {
            "success".to_owned()
        } else {
            "partial".to_owned()
        },
        chunk_count,
        estimated_duration_ms: chunk_count as u128 * 30_000_000_000,
        audio_file_path: Some(join(folder, "audio.mp4")),
        message,
    }
}

/// Which pieces may be deleted: those of a track that was joined and is there. The pieces
/// of a recording without separate folders go once the mixed recording is there.
#[derive(Clone, Copy, Debug, PartialEq, Eq, Structural)]
pub enum Cleanup {
    Nothing,
    /// All pieces at once.
    Everything,
    /// Track by track.
    ByTrack,
}

/// How pieces are deleted.
pub fn cleanup_checkpoints(has_pieces: bool, by_track: bool, mixed_is_file: bool) -> (how: Cleanup)
    ensures
        how == if !has_pieces {
            Cleanup::Nothing
        } else if by_track {
            Cleanup::ByTrack
        } else if mixed_is_file {
            Cleanup::Everything
        } else {
            Cleanup::Nothing
        },
{
    if !has_pieces {
        Cleanup::Nothing
    } else if by_track {
        Cleanup::ByTrack
    } else if mixed_is_file {
        Cleanup::Everything
    } else {
        Cleanup::Nothing
    }
}

/// Whether the pieces of one track are deleted: the joined track is there, and the pieces
/// say that they were joined.
pub fn track_cleanup(track_is_file: bool, marked_recovered: bool) -> (delete: bool)
    ensures
        delete == (track_is_file && marked_recovered),
{
    track_is_file && marked_recovered
}

/// An apostrophe is closed, escaped and opened again, every other character stands for itself,
/// and two texts are quoted one after the other.
pub proof fn quoting_goes_character_by_character(left: Seq<char>, right: Seq<char>, c: char)
    ensures
        quoted(left + right) == quoted(left) + quoted(right),
        quoted(seq!['\'']) == seq!['\'', '\\', '\'', '\''],
        c != '\'' ==> quoted(seq![c]) == seq![c],
        quoted(Seq::empty()) == Seq::<char>::empty(),
    decreases right.len(),
{
    let whole = left + right;
    if right.len() == 0 {
        assert(whole =~= left);
        assert(quoted(left) + quoted(right) =~= quoted(left));
    } else {
        quoting_goes_character_by_character(left, right.drop_last(), c);
        assert(whole.drop_last() =~= left + right.drop_last());
        assert(quoted(whole) =~= quoted(left) + quoted(right));
    }
    reveal_strlit("'\\''");
    let nothing = Seq::<char>::empty();
    assert(seq!['\''].drop_last() =~= nothing);
    assert(quoted(seq!['\'']) =~= quoted(nothing) + "'\\''"@);
    assert("'\\''"@ =~= seq!['\'', '\\', '\'', '\'']);
    assert(quoted(seq!['\'']) =~= seq!['\'', '\\', '\'', '\'']);
    if c != '\'' {
        assert(seq![c].drop_last() =~= nothing);
        assert(quoted(seq![c]) =~= seq![c]);
    }
}

/// The files that are pieces are those named as FLAC or MP4, in the order they came: each file
/// counts for itself, wherever it stands.
pub proof fn pieces_are_picked_by_their_names(left: Seq<String>, right: Seq<String>, file: String)
    ensures
        pieces_among(left + right) == pieces_among(left) + pieces_among(right),
        (extension(file@) == Some("flac"@) || extension(file@) == Some("mp4"@)) ==> pieces_among(
            seq![file],
        ) == seq![file],
        !(extension(file@) == Some("flac"@) || extension(file@) == Some("mp4"@)) ==> pieces_among(
            seq![file],
        ).len() == 0,
    decreases right.len(),
{
    let whole = left + right;
    if right.len() == 0 {
        assert(whole =~= left);
        assert(pieces_among(left) + pieces_among(right) =~= pieces_among(left));
    } else {
        pieces_are_picked_by_their_names(left, right.drop_last(), file);
        assert(whole.drop_last() =~= left + right.drop_last());
        assert(pieces_among(whole) =~= pieces_among(left) + pieces_among(right));
    }
    let one = seq![file];
    assert(one.drop_last() =~= Seq::<String>::empty());
    assert(pieces_among(one.drop_last()) =~= Seq::<String>::empty());
    assert(pieces_among(one) =~= if is_piece(file@) {
        one
    } else {
        Seq::empty()
    });
}

/// The list that pieces are joined from names each file on a line of its own, in their order.
pub proof fn files_are_listed_in_order(left: Seq<Seq<char>>, file: Seq<char>)
    ensures
        list_of(left.push(file), left.len() as int + 1) == list_of(left, left.len() as int)
            + "file '"@ + quoted(file) + "'\n"@,
        list_of(left, 0).len() == 0,
{
    lemma_same_list(left, left.push(file), left.len() as int);
    let head = list_of(left, left.len() as int);
    assert(head + ("file '"@ + quoted(file) + "'\n"@) =~= head + "file '"@ + quoted(file) + "'\n"@);
}

proof fn lemma_same_list(files: Seq<Seq<char>>, more: Seq<Seq<char>>, upto: int)
    requires
        0 <= upto <= files.len() <= more.len(),
        forall|i: int| 0 <= i < files.len() ==> files[i] == #[trigger] more[i],
    ensures
        list_of(files, upto) == list_of(more, upto),
    decreases upto,
{
    if upto > 0 {
        lemma_same_list(files, more, upto - 1);
        assert(files[upto - 1] == more[upto - 1]);
    }
}

/// Tracks that only lacked their names are a success if the mixed recording is one of them,
/// and that is then named and as long as it was measured; without it nothing is named. Every
/// track is counted.
pub proof fn named_tracks_need_the_mixed_one(
    folder: Seq<char>,
    tracks: Seq<Seq<char>>,
    length: u64,
)
    ensures
        ({
            let report = named_status(folder, tracks, Some(length));
            let whole = exists|i: int|
                0 <= i < tracks.len() && crate::paths::components(#[trigger] tracks[i])
                    == crate::paths::components(inside(folder, "audio.mp4"@));
            &&& whole ==> report.status == "success"@ && report.audio_file_path == Some(
                inside(folder, "audio.mp4"@),
            ) && report.estimated_duration_ms == length
            &&& !whole ==> report.status == "partial"@ && report.audio_file_path is None
                && report.estimated_duration_ms == 0
            &&& report.chunk_count == tracks.len()
            &&& named_status(folder, tracks, None).estimated_duration_ms == 0
        }),
{
}

/// A recording that was joined lasts half a minute for every piece. It is a success if every
/// separate track was joined too; one that was not is named with its reason.
pub proof fn joined_recording_is_reported(
    folder: Seq<char>,
    count: int,
    failures: Seq<(Seq<char>, Seq<char>)>,
    index: int,
)
    ensures
        ({
            let report = joined_status(folder, count, failures);
            &&& report.chunk_count == count
            &&& report.estimated_duration_ms == count * 30_000_000_000
            &&& report.audio_file_path == Some(inside(folder, "audio.mp4"@))
            &&& failures.len() == 0 ==> report.status == "success"@
            &&& failures.len() > 0 ==> report.status == "partial"@
            &&& 0 <= index < failures.len() ==> holds_text(
                report.message,
                failures[index].0 + ": "@ + failures[index].1,
            )
        }),
{
    if 0 <= index < failures.len() {
        lemma_failure_is_listed(failures, index);
        let list = failure_list(failures);
        let part = failures[index].0 + ": "@ + failures[index].1;
        let at = choose|at: int| #[trigger] stands_at(list, part, at);
        let head = "Recovered mixed audio; source-track recovery failed ("@;
        let message = head + list + ")"@;
        assert(message.subrange(head.len() + at, head.len() + at + part.len()) =~= part) by {
            assert(list.subrange(at, at + part.len()) =~= part);
            assert forall|i: int| 0 <= i < part.len() implies message[head.len() + at + i]
                == part[i] by {
                assert(list.subrange(at, at + part.len())[i] == list[at + i]);
            }
        }
        assert(stands_at(message, part, head.len() + at));
    }
    assert(count * PIECE_SECONDS * 1_000_000_000 == count * 30_000_000_000) by (nonlinear_arith)
        requires
            PIECE_SECONDS == 30,
    ;
}

proof fn lemma_failure_is_listed(failures: Seq<(Seq<char>, Seq<char>)>, index: int)
    requires
        0 <= index < failures.len(),
    ensures
        holds_text(failure_list(failures), failures[index].0 + ": "@ + failures[index].1),
    decreases failures.len(),
{
    let list = failure_list(failures);
    let part = failures[index].0 + ": "@ + failures[index].1;
    let before = failure_list(failures.drop_last());
    let mark = if failures.len() > 1 {
        "; "@
    } else {
        Seq::empty()
    };
    if index == failures.len() - 1 {
        let at = (before + mark).len() as int;
        assert(list.subrange(at, at + part.len()) =~= part);
        assert(stands_at(list, part, at));
    } else {
        lemma_failure_is_listed(failures.drop_last(), index);
        assert(failures.drop_last()[index] == failures[index]);
        let at = choose|at: int| #[trigger] stands_at(before, part, at);
        assert(list.subrange(at, at + part.len()) =~= before.subrange(at, at + part.len()));
        assert(stands_at(list, part, at));
    }
}

/// Where there was nothing to join that is said, and anything else that kept the recording
/// from being joined is a failure; either way the reason is given as it is.
pub proof fn unjoined_recording_is_reported(reason: Seq<char>)
    ensures
        unjoined_status(reason).message == reason,
        unjoined_status(reason).audio_file_path is None,
        unjoined_status(reason).chunk_count == 0,
        starts_with(reason, "No checkpoints"@) ==> unjoined_status(reason).status == "none"@,
        !starts_with(reason, "No checkpoints"@) ==> unjoined_status(reason).status == "failed"@,
{
}

/// Of pieces in order the first ones are taken, as many as are expected; where nothing is
/// expected, all.
pub proof fn first_pieces_are_taken(sorted: Seq<String>, count: u32, index: int)
    requires
        count <= sorted.len(),
        0 <= index < count,
    ensures
        first_pieces(sorted, Some(count)).len() == count,
        first_pieces(sorted, Some(count))[index] == sorted[index],
        first_pieces(sorted, None) == sorted,
{
}

/// There is audio to recover as soon as one file holds some: a track under its temporary name
/// that is not empty, or a piece named as FLAC or MP4.
pub proof fn one_file_is_enough(
    files: Seq<FolderFile>,
    pieces: Seq<String>,
    stem: Seq<char>,
    index: int,
)
    requires
        stem.len() > 0,
    ensures
        0 <= index < files.len() && files[index].name@ == stem + ".part"@ && files[index].size > 0
            ==> holds_unfinished(files),
        (forall|i: int| 0 <= i < files.len() ==> (#[trigger] files[i]).size == 0)
            ==> !holds_unfinished(files),
        0 <= index < pieces.len() && (extension(pieces[index]@) == Some("flac"@) || extension(
            pieces[index]@,
        ) == Some("mp4"@)) ==> holds_piece(pieces),
        (forall|i: int|
            0 <= i < pieces.len() ==> extension((#[trigger] pieces[i])@) != Some("flac"@)
                && extension(pieces[i]@) != Some("mp4"@)) ==> !holds_piece(pieces),
{
    crate::streaming_encoder::temporary_name_is_known(stem);
}

} // verus!
