//! Converting recordings that are already on disk.
//!
//! A password set today has to cover the sessions recorded last month, and a password
//! removed has to give them back as playable files. No file is ever written in place
//! and none is replaced until its replacement has been read back and checked: the
//! converted bytes go beside the recording, that file is read back and its digest held
//! against the source's, and only then the original is moved aside, the replacement
//! takes its place and the original is deleted.

use crate::digest::{same_digest, sha256};
use crate::own_speech_record::RECORD_NAME;
use crate::paths::{extension_of_name, file_name, inside, join, name_extension, name_of};
use crate::retranscription::{is_audio_extension, known_audio_extension};
use crate::sorting::{in_path_order, names_place, sorted_paths};
use crate::streaming_encoder::PARTIAL_EXT;
use crate::text::{
    ascii_lower_text, ascii_lowered_text, chars_of, decimal, decimal_text, ends_with, has_suffix,
    joined, piece, same_text, text_of,
};
use vstd::prelude::*;

verus! {

/// Suffix of a conversion in progress. Never read as audio.
pub const IN_PROGRESS_SUFFIX: &'static str = "tkconv";

/// Suffix of an original waiting to be deleted once its replacement is in place.
pub const SUPERSEDED_SUFFIX: &'static str = "tkold";

/// Which way to convert.
#[derive(Debug, Clone, Copy, PartialEq, Eq, Structural)]
pub enum Direction {
    /// Plaintext recordings become encrypted ones.
    Encrypt,
    /// Encrypted recordings become plaintext ones, so they stay playable after the
    /// password is removed.
    Decrypt,
}

impl Direction {
    pub open spec fn wants(self, encrypted: bool) -> bool {
        match self {
            Direction::Encrypt => !encrypted,
            Direction::Decrypt => encrypted,
        }
    }

    pub fn wants_conversion(self, encrypted: bool) -> (wanted: bool)
        ensures
            wanted == self.wants(encrypted),
    {
        match self {
            Direction::Encrypt => !encrypted,
            Direction::Decrypt => encrypted,
        }
    }

    pub open spec fn name(self) -> Seq<char> {
        match self {
            Direction::Encrypt => "Encrypt"@,
            Direction::Decrypt => "Decrypt"@,
        }
    }
}

/// What one pass did.
#[derive(Debug, Clone)]
pub struct ConversionReport {
    /// Files converted by this pass.
    pub converted: usize,
    /// Files that were already the way they should be.
    pub untouched: usize,
    /// Files that could not be converted, with the reason. The originals are still in
    /// place.
    pub failed: Vec<(String, String)>,
}

impl ConversionReport {
    pub fn new() -> (report: ConversionReport)
        ensures
            report.converted == 0,
            report.untouched == 0,
            report.failed@.len() == 0,
    {
        ConversionReport { converted: 0, untouched: 0, failed: Vec::new() }
    }

    pub fn is_complete(&self) -> (complete: bool)
        ensures
            complete == (self.failed@.len() == 0),
    {
        self.failed.len() == 0
    }

    /// One line for the log.
    pub fn summary(&self, direction: Direction) -> (line: String)
        ensures
            line@ == direction.name() + ": "@ + decimal(self.converted as nat) + " converted, "@
                + decimal(self.untouched as nat) + " already so, "@ + decimal(
                self.failed@.len() as nat,
            ) + " failed"@,
    {
        let name = match direction {
            Direction::Encrypt => "Encrypt",
            Direction::Decrypt => "Decrypt",
        };
        let converted = text_of(&decimal_text(self.converted as u64));
        let untouched = text_of(&decimal_text(self.untouched as u64));
        let failed = text_of(&decimal_text(self.failed.len() as u64));
        let mut line = joined(name, ": ");
        line.append(converted.as_str());
        line.append(" converted, ");
        line.append(untouched.as_str());
        line.append(" already so, ");
        line.append(failed.as_str());
        line.append(" failed");
        line
    }
}

/// A recording of a pass: where it is, whether it looked encrypted, and, if a conversion
/// was tried, why it failed.
#[derive(Debug)]
pub struct Visited {
    pub path: String,
    pub encrypted: bool,
    pub error: Option<String>,
}

/// How many of the first `upto` files were to be converted and could be.
pub open spec fn converted_among(
    visited: Seq<Visited>,
    wanted: spec_fn(bool) -> bool,
    upto: int,
) -> int
    decreases upto,
{
    if upto <= 0 {
        0
    } else {
        converted_among(visited, wanted, upto - 1) + if wanted(visited[upto - 1].encrypted)
            && visited[upto - 1].error is None {
            1int
        } else {
            0
        }
    }
}

/// How many of the first `upto` files were already so.
pub open spec fn untouched_among(
    visited: Seq<Visited>,
    wanted: spec_fn(bool) -> bool,
    upto: int,
) -> int
    decreases upto,
{
    if upto <= 0 {
        0
    } else {
        untouched_among(visited, wanted, upto - 1) + if wanted(visited[upto - 1].encrypted) {
            0int
        } else {
            1
        }
    }
}

/// The first `upto` files that could not be converted, with their reasons.
pub open spec fn failed_among(
    visited: Seq<Visited>,
    wanted: spec_fn(bool) -> bool,
    upto: int,
) -> Seq<(Seq<char>, Seq<char>)>
    decreases upto,
{
    if upto <= 0 {
        Seq::empty()
    } else {
        let before = failed_among(visited, wanted, upto - 1);
        let file = visited[upto - 1];
        match file.error {
            Some(reason) => if wanted(file.encrypted) {
                before.push((file.path@, reason@))
            } else {
                before
            },
            None => before,
        }
    }
}

/// What the failures of a report spell.
pub open spec fn failures(failed: Seq<(String, String)>) -> Seq<(Seq<char>, Seq<char>)> {
    failed.map_values(|entry: (String, String)| (entry.0@, entry.1@))
}

/// The report is what came of the files that were to be converted.
pub open spec fn reports(
    report: ConversionReport,
    visited: Seq<Visited>,
    wanted: spec_fn(bool) -> bool,
) -> bool {
    let all = visited.len() as int;
    &&& report.converted == converted_among(visited, wanted, all)
    &&& report.untouched == untouched_among(visited, wanted, all)
    &&& failures(report.failed@) == failed_among(visited, wanted, all)
}

fn tally(visited: &Vec<Visited>, encrypted_ones: bool) -> (report: ConversionReport)
    ensures
        reports(report, visited@, |encrypted: bool| encrypted == encrypted_ones),
{
    let ghost wanted = |encrypted: bool| encrypted == encrypted_ones;
    let mut report = ConversionReport::new();
    let mut index: usize = 0;
    assert(failures(report.failed@) =~= failed_among(visited@, wanted, 0));
    while index < visited.len()
        invariant
            index <= visited@.len(),
            wanted == (|encrypted: bool| encrypted == encrypted_ones),
            0 <= report.converted <= index,
            0 <= report.untouched <= index,
            report.converted == converted_among(visited@, wanted, index as int),
            report.untouched == untouched_among(visited@, wanted, index as int),
            failures(report.failed@) == failed_among(visited@, wanted, index as int),
        decreases visited@.len() - index,
    {
        let file = &visited[index];
        let ghost before = report.failed@;
        if file.encrypted == encrypted_ones {
            match &file.error {
                Some(reason) => {
                    report.failed.push((file.path.clone(), reason.clone()));
                    assert(failures(report.failed@) =~= failures(before).push(
                        (file.path@, reason@),
                    ));
                },
                None => {
                    report.converted += 1;
                },
            }
        } else {
            report.untouched += 1;
        }
        index += 1;
    }
    report
}

/// What a pass over every recording did: those that are not yet the way the password
/// wants them are converted, the others are left alone.
pub fn convert_all(visited: &Vec<Visited>, direction: Direction) -> (report: ConversionReport)
    ensures
        reports(report, visited@, |encrypted: bool| direction.wants(encrypted)),
{
    let encrypted_ones = match direction {
        Direction::Encrypt => false,
        Direction::Decrypt => true,
    };
    let report = tally(visited, encrypted_ones);
    proof {
        lemma_same_report(
            visited@,
            |encrypted: bool| encrypted == encrypted_ones,
            |encrypted: bool| direction.wants(encrypted),
            visited@.len() as int,
        );
    }
    report
}

/// What bringing a folder under another key did: the encrypted files are sealed anew or
/// opened, the others are left as they are.
pub fn rekey_folder(visited: &Vec<Visited>) -> (report: ConversionReport)
    ensures
        reports(report, visited@, |encrypted: bool| encrypted),
{
    let report = tally(visited, true);
    proof {
        lemma_same_report(
            visited@,
            |encrypted: bool| encrypted == true,
            |encrypted: bool| encrypted,
            visited@.len() as int,
        );
    }
    report
}

proof fn lemma_same_report(
    visited: Seq<Visited>,
    a: spec_fn(bool) -> bool,
    b: spec_fn(bool) -> bool,
    upto: int,
)
    requires
        forall|encrypted: bool| #[trigger] a(encrypted) == b(encrypted),
    ensures
        converted_among(visited, a, upto) == converted_among(visited, b, upto),
        untouched_among(visited, a, upto) == untouched_among(visited, b, upto),
        failed_among(visited, a, upto) == failed_among(visited, b, upto),
    decreases upto,
{
    if upto > 0 {
        lemma_same_report(visited, a, b, upto - 1);
        assert(a(visited[upto - 1].encrypted) == b(visited[upto - 1].encrypted));
    }
}

/// Every file of a pass is accounted for once: converted, already so, or failed.
pub proof fn every_file_is_accounted_for(
    visited: Seq<Visited>,
    wanted: spec_fn(bool) -> bool,
    upto: int,
)
    requires
        0 <= upto,
    ensures
        converted_among(visited, wanted, upto) + untouched_among(visited, wanted, upto)
            + failed_among(visited, wanted, upto).len() == upto,
    decreases upto,
{
    if upto > 0 {
        every_file_is_accounted_for(visited, wanted, upto - 1);
    }
}

/// A pass after one that failed nowhere has nothing left to do: once every file is the
/// way the password wants it, all are left alone.
pub proof fn second_pass_has_nothing_to_do(
    visited: Seq<Visited>,
    direction: Direction,
    upto: int,
)
    requires
        0 <= upto <= visited.len(),
        forall|i: int|
            0 <= i < visited.len() ==> (#[trigger] visited[i]).encrypted == (direction is Encrypt),
    ensures
        converted_among(visited, |encrypted: bool| direction.wants(encrypted), upto) == 0,
        untouched_among(visited, |encrypted: bool| direction.wants(encrypted), upto) == upto,
        failed_among(visited, |encrypted: bool| direction.wants(encrypted), upto).len() == 0,
    decreases upto,
{
    if upto > 0 {
        second_pass_has_nothing_to_do(visited, direction, upto - 1);
        assert(visited[upto - 1].encrypted == (direction is Encrypt));
    }
}

/// How the recordings on disk are split between encrypted and not.
#[derive(Debug, Clone, Copy, PartialEq, Eq, Structural)]
pub struct RecordingCounts {
    pub encrypted: usize,
    pub plaintext: usize,
}

/// How many of the first `upto` are so.
pub open spec fn count_of(flags: Seq<bool>, wanted: bool, upto: int) -> int
    decreases upto,
{
    if upto <= 0 {
        0
    } else {
        count_of(flags, wanted, upto - 1) + if flags[upto - 1] == wanted {
            1int
        } else {
            0
        }
    }
}

/// Count the recordings, from whether each one looks encrypted.
pub fn count_recordings(encrypted: &Vec<bool>) -> (counts: RecordingCounts)
    ensures
        counts.encrypted == count_of(encrypted@, true, encrypted@.len() as int),
        counts.plaintext == count_of(encrypted@, false, encrypted@.len() as int),
        counts.encrypted + counts.plaintext == encrypted@.len(),
{
    let mut counts = RecordingCounts { encrypted: 0, plaintext: 0 };
    let mut index: usize = 0;
    while index < encrypted.len()
        invariant
            index <= encrypted@.len(),
            counts.encrypted == count_of(encrypted@, true, index as int),
            counts.plaintext == count_of(encrypted@, false, index as int),
            counts.encrypted + counts.plaintext == index,
        decreases encrypted@.len() - index,
    {
        if encrypted[index] {
            counts.encrypted += 1;
        } else {
            counts.plaintext += 1;
        }
        index += 1;
    }
    counts
}

/// A path with a dot and a suffix behind it.
pub open spec fn suffixed(path: Seq<char>, suffix: Seq<char>) -> Seq<char> {
    path + "."@ + suffix
}

pub fn with_suffix(path: &str, suffix: &str) -> (longer: String)
    ensures
        longer@ == suffixed(path@, suffix@),
{
    let mut longer = joined(path, ".");
    longer.append(suffix);
    longer
}

/// A path without the dot and the suffix behind it; as it is where they are not there.
pub open spec fn unsuffixed(path: Seq<char>, suffix: Seq<char>) -> Seq<char> {
    let marker = "."@ + suffix;
    if ends_with(path, marker) {
        path.take(path.len() - marker.len())
    } else {
        path
    }
}

pub fn with_suffix_removed(path: &str, suffix: &str) -> (shorter: String)
    ensures
        shorter@ == unsuffixed(path@, suffix@),
{
    let marker = chars_of(joined(".", suffix).as_str());
    let chars = chars_of(path);
    if has_suffix(&chars, &marker) {
        let rest = piece(&chars, 0, chars.len() - marker.len());
        assert(rest@ =~= path@.take(path@.len() - marker@.len()));
        text_of(&rest)
    } else {
        path.to_owned()
    }
}

/// A suffix that was put behind a path can be taken away again.
pub proof fn suffix_comes_off_again(path: Seq<char>, suffix: Seq<char>)
    ensures
        unsuffixed(suffixed(path, suffix), suffix) == path,
{
    let marker = "."@ + suffix;
    let longer = suffixed(path, suffix);
    assert(longer =~= path + marker);
    assert(longer.skip(longer.len() - marker.len()) =~= marker);
    assert(longer.take(longer.len() - marker.len()) =~= path);
}

/// A file name that ends with a dot and a suffix.
pub open spec fn has_marker(name: Seq<char>, suffix: Seq<char>) -> bool {
    ends_with(name, "."@ + suffix)
}

fn marked(name: &Vec<char>, suffix: &str) -> (found: bool)
    ensures
        found == has_marker(name@, suffix@),
{
    let marker = chars_of(joined(".", suffix).as_str());
    has_suffix(name, &marker)
}

/// What belongs to a recording and follows its password: audio, and what the detector
/// wrote down. A track still being recorded, or the remains of a conversion, is not.
pub open spec fn follows_the_password(name: Seq<char>) -> bool {
    &&& !has_marker(name, PARTIAL_EXT@)
    &&& !has_marker(name, IN_PROGRESS_SUFFIX@)
    &&& !has_marker(name, SUPERSEDED_SUFFIX@)
    &&& name == RECORD_NAME@ || (extension_of_name(name) matches Some(extension)
        && is_audio_extension(ascii_lowered_text(extension)))
}

/// Whether a file belongs to a recording, by its name.
pub fn is_recording_file(name: &str) -> (belongs: bool)
    ensures
        belongs == follows_the_password(name@),
{
    let chars = chars_of(name);
    if marked(&chars, PARTIAL_EXT) || marked(&chars, IN_PROGRESS_SUFFIX) || marked(
        &chars,
        SUPERSEDED_SUFFIX,
    ) {
        return false;
    }
    if same_text(name, RECORD_NAME) {
        return true;
    }
    match name_extension(&chars) {
        Some(extension) => {
            let lower = text_of(&ascii_lower_text(&extension));
            known_audio_extension(lower.as_str())
        },
        None => false,
    }
}

/// A path of a file that belongs to a recording.
pub open spec fn is_recording_path(path: Seq<char>) -> bool {
    name_of(path) matches Some(name) && follows_the_password(name)
}

/// `found` are the recordings among `files`: in order, each place once.
#[verifier::opaque]
pub open spec fn are_recordings_of(found: Seq<String>, files: Seq<String>) -> bool {
    &&& in_path_order(found)
    &&& forall|i: int|
        0 <= i < found.len() ==> files.contains(#[trigger] found[i]) && is_recording_path(found[i]@)
    &&& forall|i: int|
        0 <= i < files.len() && is_recording_path((#[trigger] files[i])@) ==> names_place(
            found,
            files[i]@,
        )
}

/// The recording files among the files of the archive's folders, in order and each once.
pub fn recordings_under(files: Vec<String>) -> (found: Vec<String>)
    ensures
        are_recordings_of(found@, files@),
        in_path_order(found@),
        forall|i: int|
            0 <= i < found@.len() ==> files@.contains(#[trigger] found@[i]) && is_recording_path(
                found@[i]@,
            ),
        forall|i: int|
            0 <= i < files@.len() && is_recording_path((#[trigger] files@[i])@) ==> names_place(
                found@,
                files@[i]@,
            ),
{
    let ghost given = files@;
    let mut rest = files;
    let mut kept: Vec<String> = Vec::new();
    let ghost mut done: int = 0;
    assert(given.skip(0) =~= given);
    while rest.len() > 0
        invariant
            0 <= done <= given.len(),
            rest@ == given.skip(done),
            forall|i: int|
                0 <= i < kept@.len() ==> given.contains(#[trigger] kept@[i]) && is_recording_path(
                    kept@[i]@,
                ),
            forall|i: int|
                0 <= i < done && is_recording_path((#[trigger] given[i])@) ==> kept@.contains(
                    given[i],
                ),
        decreases rest@.len(),
    {
        let file = rest.remove(0);
        assert(file == given[done]);
        assert(rest@ =~= given.skip(done + 1));
        let ghost before = kept@;
        let belongs = match file_name(file.as_str()) {
            Some(name) => {
                let text = text_of(&name);
                is_recording_file(text.as_str())
            },
            None => false,
        };
        if belongs {
            let ghost item = file;
            kept.push(file);
            proof {
                assert(kept@[before.len() as int] == item);
                assert forall|i: int|
                    0 <= i < done && is_recording_path((#[trigger] given[i])@) implies kept@.contains(
                    given[i],
                ) by {
                    let k = choose|k: int| 0 <= k < before.len() && before[k] == given[i];
                    assert(kept@[k] == given[i]);
                }
            }
        }
        proof {
            done = done + 1;
        }
    }
    let ghost all = kept@;
    let found = sorted_paths(kept);
    proof {
        assert forall|i: int| 0 <= i < found@.len() implies given.contains(#[trigger] found@[i])
            && is_recording_path(found@[i]@) by {
            let k = choose|k: int| 0 <= k < all.len() && all[k] == found@[i];
            assert(given.contains(all[k]));
        }
        assert forall|i: int|
            0 <= i < given.len() && is_recording_path((#[trigger] given[i])@) implies names_place(
            found@,
            given[i]@,
        ) by {
            let k = choose|k: int| 0 <= k < all.len() && all[k] == given[i];
            assert(names_place(found@, all[k]@));
        }
        reveal(are_recordings_of);
    }
    found
}

/// An entry of an archive's folder: whether it is a folder, and whether it keeps working
/// tracks.
#[derive(Debug)]
pub struct ArchiveEntry {
    pub path: String,
    pub is_dir: bool,
    pub has_work: bool,
}

/// A path is a folder that an entry stands for: a meeting's, or the one of its working
/// tracks.
pub open spec fn is_folder_of(entry: ArchiveEntry, path: Seq<char>) -> bool {
    entry.is_dir && (path == entry.path@ || (entry.has_work && path == inside(
        entry.path@,
        ".work"@,
    )))
}

/// One of the entries stands for this folder.
pub open spec fn is_listed(entries: Seq<ArchiveEntry>, path: Seq<char>) -> bool {
    exists|i: int| 0 <= i < entries.len() && is_folder_of(#[trigger] entries[i], path)
}

/// The folders that recordings are kept in, in order and each once: one level of each
/// archive, not a sweep.
pub fn recording_folders(entries: &Vec<ArchiveEntry>) -> (folders: Vec<String>)
    ensures
        in_path_order(folders@),
        forall|k: int|
            0 <= k < folders@.len() ==> is_listed(entries@, (#[trigger] folders@[k])@),
        forall|i: int, path: Seq<char>|
            0 <= i < entries@.len() && #[trigger] is_folder_of(entries@[i], path) ==> names_place(
                folders@,
                path,
            ),
{
    let mut found: Vec<String> = Vec::new();
    let mut index: usize = 0;
    while index < entries.len()
        invariant
            index <= entries@.len(),
            forall|k: int| 0 <= k < found@.len() ==> is_listed(entries@, (#[trigger] found@[k])@),
            forall|i: int, path: Seq<char>|
                0 <= i < index && #[trigger] is_folder_of(entries@[i], path) ==> holds_text_of(
                    found@,
                    path,
                ),
        decreases entries@.len() - index,
    {
        let ghost before = found@;
        if entries[index].is_dir {
            found.push(entries[index].path.clone());
            assert(found@[before.len() as int]@ == entries@[index as int].path@);
            if entries[index].has_work {
                found.push(join(entries[index].path.as_str(), ".work"));
                assert(found@[before.len() as int + 1]@ == inside(entries@[index as int].path@, ".work"@));
            }
        }
        proof {
            let after = found@;
            assert forall|k: int| 0 <= k < after.len() implies is_listed(
                entries@,
                (#[trigger] after[k])@,
            ) by {
                if k < before.len() {
                    assert(after[k] == before[k]);
                } else {
                    assert(is_folder_of(entries@[index as int], after[k]@));
                }
            }
            assert forall|i: int, path: Seq<char>|
                0 <= i < index + 1 && #[trigger] is_folder_of(
                    entries@[i],
                    path,
                ) implies holds_text_of(after, path) by {
                if i < index {
                    assert(holds_text_of(before, path));
                    let k = choose|k: int| 0 <= k < before.len() && (#[trigger] before[k])@ == path;
                    assert(after[k]@ == path);
                } else if path == entries@[i].path@ {
                    assert(after[before.len() as int]@ == path);
                } else {
                    assert(after[before.len() as int + 1]@ == path);
                }
            }
        }
        index += 1;
    }
    let ghost all = found@;
    let folders = sorted_paths(found);
    proof {
        assert forall|k: int| 0 <= k < folders@.len() implies is_listed(
            entries@,
            (#[trigger] folders@[k])@,
        ) by {
            assert(all.contains(folders@[k]));
            let at = choose|at: int| 0 <= at < all.len() && all[at] == folders@[k];
            assert(is_listed(entries@, all[at]@));
        }
        assert forall|i: int, path: Seq<char>|
            0 <= i < entries@.len() && #[trigger] is_folder_of(entries@[i], path) implies names_place(
            folders@,
            path,
        ) by {
            assert(holds_text_of(all, path));
            let k = choose|k: int| 0 <= k < all.len() && (#[trigger] all[k])@ == path;
            assert(names_place(folders@, all[k]@));
        }
    }
    folders
}

/// One of the paths is written this way.
spec fn holds_text_of(list: Seq<String>, path: Seq<char>) -> bool {
    exists|k: int| 0 <= k < list.len() && (#[trigger] list[k])@ == path
}

/// What is done with what a crash left behind.
#[derive(Clone, Copy, Debug, PartialEq, Eq, Structural)]
pub enum Recovery {
    /// It is not a remainder.
    Leave,
    /// A conversion that was being written: unverified, so it goes.
    Discard,
    /// The original of a replacement that is in place: it goes.
    DropSuperseded,
    /// An original without a replacement: it is put back.
    PutBack,
}

/// What is done with an entry of a recording's folder. `original_exists` says whether
/// there is a file under the name without the suffix.
pub fn recover_interrupted(name: &str, original_exists: bool) -> (what: Recovery)
    ensures
        what == if has_marker(name@, IN_PROGRESS_SUFFIX@) {
            Recovery::Discard
        } else if has_marker(name@, SUPERSEDED_SUFFIX@) {
            if original_exists {
                Recovery::DropSuperseded
            } else {
                Recovery::PutBack
            }
        } else {
            Recovery::Leave
        },
{
    let chars = chars_of(name);
    if marked(&chars, IN_PROGRESS_SUFFIX) {
        Recovery::Discard
    } else if marked(&chars, SUPERSEDED_SUFFIX) {
        if original_exists {
            Recovery::DropSuperseded
        } else {
            Recovery::PutBack
        }
    } else {
        Recovery::Leave
    }
}

/// The steps of one conversion, in order. Each is done on the recording, on the
/// replacement beside it or on the original that was moved aside.
#[derive(Clone, Copy, Debug, PartialEq, Eq, Structural)]
pub enum ConversionStage {
    /// Delete a replacement that an earlier attempt left.
    DropStale,
    /// Write the replacement, taking the digest of the source.
    Write,
    /// Read the replacement back, taking its digest.
    ReadBack,
    /// Delete the replacement: it does not hold the same audio.
    DropReplacement,
    /// Delete an original that an earlier attempt left.
    DropOld,
    /// Move the original aside.
    MoveAside,
    /// Move the replacement into its place.
    MoveIn,
    /// Move the original back.
    PutBack,
    /// Delete the original.
    DropOriginal,
    Done,
    Failed,
}

/// One conversion.
pub struct Conversion {
    pub stage: ConversionStage,
    pub source_digest: Option<[u8; 32]>,
    /// Why the conversion failed.
    pub error: Option<String>,
}

/// What came of a step.
#[derive(Debug)]
pub enum ConversionEvent {
    Done,
    /// A digest, of a step that takes one.
    Digest([u8; 32]),
    Failed(String),
}

impl Conversion {
    pub fn new() -> (conversion: Conversion)
        ensures
            conversion.stage == ConversionStage::DropStale,
            conversion.source_digest is None,
            conversion.error is None,
    {
        Conversion { stage: ConversionStage::DropStale, source_digest: None, error: None }
    }

    /// The event belongs to where the conversion stands.
    pub open spec fn expects(&self, event: ConversionEvent) -> bool {
        match (self.stage, event) {
            (ConversionStage::Write, ConversionEvent::Done) => false,
            (ConversionStage::ReadBack, ConversionEvent::Done) => false,
            (ConversionStage::ReadBack, _) => self.source_digest is Some,
            (ConversionStage::Write, _) => true,
            (ConversionStage::Done, _) => false,
            (ConversionStage::Failed, _) => false,
            (_, ConversionEvent::Digest(_)) => false,
            _ => true,
        }
    }

    /// Where a conversion goes on from a step. Deleting a remainder may fail; writing,
    /// reading back and moving may not.
    pub open spec fn next(&self, event: ConversionEvent) -> ConversionStage {
        match (self.stage, event) {
            (ConversionStage::DropStale, _) => ConversionStage::Write,
            (ConversionStage::Write, ConversionEvent::Digest(_)) => ConversionStage::ReadBack,
            (ConversionStage::ReadBack, ConversionEvent::Digest(written)) => if self.source_digest
                matches Some(source) && source@ == written@ {
                ConversionStage::DropOld
            } else {
                ConversionStage::DropReplacement
            },
            (ConversionStage::DropOld, _) => ConversionStage::MoveAside,
            (ConversionStage::MoveAside, ConversionEvent::Done) => ConversionStage::MoveIn,
            (ConversionStage::MoveIn, ConversionEvent::Done) => ConversionStage::DropOriginal,
            (ConversionStage::MoveIn, _) => ConversionStage::PutBack,
            (ConversionStage::DropOriginal, _) => ConversionStage::Done,
            _ => ConversionStage::Failed,
        }
    }

    /// Takes what came of a step and goes on to the next. The error that is kept is the
    /// first one; a replacement that does not hold the same audio is one too.
    pub fn step(&mut self, event: ConversionEvent, mismatch: &str)
        requires
            old(self).expects(event),
        ensures
            final(self).stage == old(self).next(event),
            match (old(self).stage, event) {
                (ConversionStage::Write, ConversionEvent::Digest(source)) =>
                final(self).source_digest == Some(source),
                _ => final(self).source_digest == old(self).source_digest,
            },
            match (old(self).stage, event) {
                (ConversionStage::Write, ConversionEvent::Failed(reason)) => final(self).error
                    == Some(reason),
                (ConversionStage::ReadBack, ConversionEvent::Failed(reason)) => final(self).error
                    == Some(reason),
                (ConversionStage::ReadBack, ConversionEvent::Digest(written)) => if old(
                    self,
                ).next(event) is DropReplacement {
                    final(self).error matches Some(reason) && reason@ == mismatch@
                } else {
                    final(self).error == old(self).error
                },
                (ConversionStage::MoveAside, ConversionEvent::Failed(reason)) => final(self).error
                    == Some(reason),
                (ConversionStage::MoveIn, ConversionEvent::Failed(reason)) => final(self).error
                    == Some(reason),
                _ => final(self).error == old(self).error,
            },
    {
        match (self.stage, event) {
            (ConversionStage::DropStale, _) => {
                self.stage = ConversionStage::Write;
            },
            (ConversionStage::Write, ConversionEvent::Digest(source)) => {
                self.source_digest = Some(source);
                self.stage = ConversionStage::ReadBack;
            },
            (ConversionStage::Write, ConversionEvent::Failed(reason)) => {
                self.error = Some(reason);
                self.stage = ConversionStage::Failed;
            },
            (ConversionStage::ReadBack, ConversionEvent::Digest(written)) => {
                let same = match &self.source_digest {
                    Some(source) => same_digest(source, &written),
                    None => false,
                };
                if same {
                    self.stage = ConversionStage::DropOld;
                } else {
                    self.error = Some(mismatch.to_owned());
                    self.stage = ConversionStage::DropReplacement;
                }
            },
            (ConversionStage::ReadBack, ConversionEvent::Failed(reason)) => {
                self.error = Some(reason);
                self.stage = ConversionStage::Failed;
            },
            (ConversionStage::DropOld, _) => {
                self.stage = ConversionStage::MoveAside;
            },
            (ConversionStage::MoveAside, ConversionEvent::Done) => {
                self.stage = ConversionStage::MoveIn;
            },
            (ConversionStage::MoveAside, ConversionEvent::Failed(reason)) => {
                self.error = Some(reason);
                self.stage = ConversionStage::Failed;
            },
            (ConversionStage::MoveIn, ConversionEvent::Done) => {
                self.stage = ConversionStage::DropOriginal;
            },
            (ConversionStage::MoveIn, ConversionEvent::Failed(reason)) => {
                self.error = Some(reason);
                self.stage = ConversionStage::PutBack;
            },
            (ConversionStage::DropOriginal, _) => {
                self.stage = ConversionStage::Done;
            },
            _ => {
                self.stage = ConversionStage::Failed;
            },
        }
    }
}

/// What is on disk of one recording: the file itself, the replacement beside it and the
/// original that was moved aside, each by the audio that reading it gives.
pub struct Shelf {
    pub file: Option<Seq<u8>>,
    pub replacement: Option<Seq<u8>>,
    pub superseded: Option<Seq<u8>>,
}

/// What can be on disk once a step was begun: it was done, it was not, or, of writing,
/// any part of it was.
pub open spec fn may_leave(stage: ConversionStage, before: Shelf, after: Shelf) -> bool {
    ||| after == before
    ||| match stage {
        ConversionStage::DropStale => after == Shelf { replacement: None, ..before },
        ConversionStage::Write => after == Shelf { replacement: after.replacement, ..before },
        ConversionStage::DropReplacement => after == Shelf { replacement: None, ..before },
        ConversionStage::DropOld => after == Shelf { superseded: None, ..before },
        ConversionStage::MoveAside => after == Shelf {
            file: None,
            superseded: before.file,
            ..before
        },
        ConversionStage::MoveIn => after == Shelf {
            file: before.replacement,
            replacement: None,
            ..before
        },
        ConversionStage::PutBack => after == Shelf {
            file: before.superseded,
            superseded: None,
            ..before
        },
        ConversionStage::DropOriginal => after == Shelf { superseded: None, ..before },
        _ => false,
    }
}

/// A step that was reported done was done: the moves happened, the source's digest is
/// that of the recording, and the replacement's that of the replacement.
pub open spec fn happened(
    conversion: Conversion,
    event: ConversionEvent,
    before: Shelf,
    after: Shelf,
) -> bool {
    match (conversion.stage, event) {
        (ConversionStage::MoveAside, ConversionEvent::Done) => after == Shelf {
            file: None,
            superseded: before.file,
            ..before
        },
        (ConversionStage::MoveIn, ConversionEvent::Done) => after == Shelf {
            file: before.replacement,
            replacement: None,
            ..before
        },
        (ConversionStage::MoveAside, _) => after == before,
        (ConversionStage::MoveIn, _) => after == before,
        (ConversionStage::Write, ConversionEvent::Digest(digest)) => {
            &&& may_leave(conversion.stage, before, after)
            &&& before.file matches Some(audio) && digest@ == sha256(audio)
        },
        (ConversionStage::ReadBack, ConversionEvent::Digest(digest)) => {
            &&& after == before
            &&& before.replacement matches Some(audio) && digest@ == sha256(audio)
        },
        _ => may_leave(conversion.stage, before, after),
    }
}

/// The recording's audio, or audio that the digest cannot tell from it.
pub open spec fn stands_for(audio: Option<Seq<u8>>, original: Seq<u8>) -> bool {
    audio matches Some(held) && sha256(held) == sha256(original)
}

/// What a conversion keeps to: the recording is in its place until a replacement was
/// held against it, and from then on either the one or the other is within reach.
pub open spec fn in_order(conversion: Conversion, shelf: Shelf, original: Seq<u8>) -> bool {
    match conversion.stage {
        ConversionStage::DropStale => shelf.file == Some(original),
        ConversionStage::Write => shelf.file == Some(original),
        ConversionStage::ReadBack => shelf.file == Some(original) && (
        conversion.source_digest matches Some(digest) && digest@ == sha256(original)),
        ConversionStage::DropReplacement => shelf.file == Some(original),
        ConversionStage::DropOld => shelf.file == Some(original) && stands_for(
            shelf.replacement,
            original,
        ),
        ConversionStage::MoveAside => shelf.file == Some(original) && stands_for(
            shelf.replacement,
            original,
        ),
        ConversionStage::MoveIn => {
            &&& shelf.file is None
            &&& shelf.superseded == Some(original)
            &&& stands_for(shelf.replacement, original)
        },
        ConversionStage::PutBack => shelf.file is None && shelf.superseded == Some(original),
        ConversionStage::DropOriginal => stands_for(shelf.file, original),
        ConversionStage::Done => stands_for(shelf.file, original),
        ConversionStage::Failed => shelf.file == Some(original) || (shelf.file is None
            && shelf.superseded == Some(original)),
    }
}

/// What is on disk after the remains were put right: no replacement, no original aside,
/// and the original back where its place was empty.
pub open spec fn recovered(shelf: Shelf) -> Shelf {
    Shelf {
        file: match (shelf.file, shelf.superseded) {
            (Some(audio), _) => Some(audio),
            (None, aside) => aside,
        },
        replacement: None,
        superseded: None,
    }
}

/// A conversion stays in order with every step, whatever comes of it.
pub proof fn conversion_stays_in_order(
    conversion: Conversion,
    after_step: Conversion,
    event: ConversionEvent,
    before: Shelf,
    after: Shelf,
    original: Seq<u8>,
)
    requires
        conversion.expects(event),
        in_order(conversion, before, original),
        happened(conversion, event, before, after),
        after_step.stage == conversion.next(event),
        match (conversion.stage, event) {
            (ConversionStage::Write, ConversionEvent::Digest(source)) => after_step.source_digest
                == Some(source),
            _ => after_step.source_digest == conversion.source_digest,
        },
    ensures
        in_order(after_step, after, original),
{
}

/// As [`in_order`], for a conversion whose replacement holds what was read of the recording:
/// what stands for the recording is its audio, byte for byte.
pub open spec fn in_exact_order(conversion: Conversion, shelf: Shelf, original: Seq<u8>) -> bool {
    &&& in_order(conversion, shelf, original)
    &&& match conversion.stage {
        ConversionStage::ReadBack | ConversionStage::DropOld | ConversionStage::MoveAside
        | ConversionStage::MoveIn => shelf.replacement == Some(original),
        ConversionStage::DropOriginal | ConversionStage::Done => shelf.file == Some(original),
        _ => true,
    }
}

/// A conversion that writes what it read loses no byte: once it is done, the recording's file
/// holds the same audio.
pub proof fn faithful_conversion_keeps_every_byte(
    conversion: Conversion,
    after_step: Conversion,
    event: ConversionEvent,
    before: Shelf,
    after: Shelf,
    original: Seq<u8>,
)
    requires
        conversion.expects(event),
        in_exact_order(conversion, before, original),
        happened(conversion, event, before, after),
        conversion.stage is Write && event is Digest ==> after.replacement == before.file,
        after_step.stage == conversion.next(event),
        match (conversion.stage, event) {
            (ConversionStage::Write, ConversionEvent::Digest(source)) => after_step.source_digest
                == Some(source),
            _ => after_step.source_digest == conversion.source_digest,
        },
    ensures
        in_exact_order(after_step, after, original),
        after_step.stage is Done ==> after.file == Some(original),
{
    conversion_stays_in_order(conversion, after_step, event, before, after, original);
}

/// Every interruption leaves either the original or the verified replacement: whatever
/// step a conversion is stopped in, before it, after it or halfway through writing,
/// putting the remains right gives the recording back.
pub proof fn every_interruption_is_recoverable(
    conversion: Conversion,
    before: Shelf,
    after: Shelf,
    original: Seq<u8>,
)
    requires
        in_order(conversion, before, original),
        may_leave(conversion.stage, before, after),
    ensures
        stands_for(recovered(after).file, original),
        recovered(after).replacement is None,
        recovered(after).superseded is None,
{
}

/// Why a conversion whose replacement does not hold the same audio failed.
pub fn mismatch_text(rekey: bool) -> (text: &'static str)
    ensures
        text@ == if rekey {
            "the re-encrypted file does not hold the same audio"@
        } else {
            "the converted file does not hold the same audio"@
        },
{
    if rekey {
        "the re-encrypted file does not hold the same audio"
    } else {
        "the converted file does not hold the same audio"
    }
}

/// A file is to be converted exactly when it does not have the form that the password wants.
pub proof fn other_form_is_converted(direction: Direction, encrypted: bool)
    ensures
        direction.wants(encrypted) <==> encrypted != (direction is Encrypt),
{
}

/// Each file of a pass counts for itself: one that is already so is left alone whatever is
/// said of it, one without an error is converted, and one with an error is listed with its
/// path and its reason, behind those before it.
pub proof fn each_file_counts_once(visited: Seq<Visited>, wanted: spec_fn(bool) -> bool, index: int)
    requires
        0 <= index < visited.len(),
    ensures
        ({
            let file = visited[index];
            let converted = converted_among(visited, wanted, index + 1) - converted_among(
                visited,
                wanted,
                index,
            );
            let untouched = untouched_among(visited, wanted, index + 1) - untouched_among(
                visited,
                wanted,
                index,
            );
            let before = failed_among(visited, wanted, index);
            let after = failed_among(visited, wanted, index + 1);
            &&& !wanted(file.encrypted) ==> converted == 0 && untouched == 1 && after == before
            &&& wanted(file.encrypted) && file.error is None ==> converted == 1 && untouched == 0
                && after == before
            &&& wanted(file.encrypted) && file.error is Some ==> converted == 0 && untouched == 0
                && after == before.push((file.path@, file.error->0@))
        }),
        converted_among(visited, wanted, 0) == 0,
        untouched_among(visited, wanted, 0) == 0,
        failed_among(visited, wanted, 0).len() == 0,
{
}

/// Each recording counts as what it looks like.
pub proof fn each_recording_is_counted(flags: Seq<bool>, index: int)
    requires
        0 <= index < flags.len(),
    ensures
        flags[index] ==> count_of(flags, true, index + 1) == count_of(flags, true, index) + 1
            && count_of(flags, false, index + 1) == count_of(flags, false, index),
        !flags[index] ==> count_of(flags, false, index + 1) == count_of(flags, false, index) + 1
            && count_of(flags, true, index + 1) == count_of(flags, true, index),
        count_of(flags, true, 0) == 0 && count_of(flags, false, 0) == 0,
{
}

/// Neither a track that is still being recorded nor what a conversion leaves behind follows the
/// password, whatever stands before its ending.
pub proof fn remains_do_not_follow_the_password(name: Seq<char>)
    ensures
        !follows_the_password(name + ".part"@),
        !follows_the_password(name + ".tkconv"@),
        !follows_the_password(name + ".tkold"@),
{
    reveal_strlit(".");
    reveal_strlit("part");
    reveal_strlit(".part");
    reveal_strlit("tkconv");
    reveal_strlit(".tkconv");
    reveal_strlit("tkold");
    reveal_strlit(".tkold");
    assert("."@ + PARTIAL_EXT@ =~= ".part"@);
    assert("."@ + IN_PROGRESS_SUFFIX@ =~= ".tkconv"@);
    assert("."@ + SUPERSEDED_SUFFIX@ =~= ".tkold"@);
    lemma_ends(name, ".part"@);
    lemma_ends(name, ".tkconv"@);
    lemma_ends(name, ".tkold"@);
}

proof fn lemma_ends(name: Seq<char>, ending: Seq<char>)
    ensures
        ends_with(name + ending, ending),
{
    let whole = name + ending;
    assert(whole.skip(whole.len() - ending.len()) =~= ending);
}

/// Audio follows the password in whatever case its extension is written.
pub proof fn audio_follows_the_password(stem: Seq<char>, ending: Seq<char>)
    requires
        stem.len() > 0,
        !ending.contains('.'),
        is_audio_extension(ascii_lowered_text(ending)),
    ensures
        follows_the_password(stem.push('.') + ending),
{
    let name = stem.push('.') + ending;
    let lower = ascii_lowered_text(ending);
    crate::paths::extension_stands_behind_the_last_dot(stem, ending);
    assert(lower.len() == ending.len());
    reveal_strlit("mp4");
    reveal_strlit("m4a");
    reveal_strlit("wav");
    reveal_strlit("mp3");
    reveal_strlit("flac");
    reveal_strlit("ogg");
    reveal_strlit("aac");
    reveal_strlit("mkv");
    reveal_strlit("webm");
    reveal_strlit("wma");
    assert(ending.len() == 3 || ending.len() == 4);
    assert(ending.len() == 4 ==> lower[0] == 'f' || lower[0] == 'w') by {
        assert("flac"@[0] == 'f' && "webm"@[0] == 'w');
    }
    reveal_strlit(".");
    reveal_strlit("part");
    reveal_strlit("tkconv");
    reveal_strlit("tkold");
    let total = name.len() as int;
    let dot = total - ending.len() - 1;
    assert(name[dot] == '.');
    if has_marker(name, PARTIAL_EXT@) {
        let marker = "."@ + PARTIAL_EXT@;
        assert(marker =~= seq!['.', 'p', 'a', 'r', 't']);
        let tail = name.skip(total - 5);
        assert(tail == marker);
        assert(tail[1] == name[total - 4]);
        if ending.len() == 4 {
            assert(ending[0] == name[total - 4]);
            assert(lower[0] == 'p');
        }
    }
    if has_marker(name, IN_PROGRESS_SUFFIX@) {
        let marker = "."@ + IN_PROGRESS_SUFFIX@;
        assert(marker =~= seq!['.', 't', 'k', 'c', 'o', 'n', 'v']);
        let tail = name.skip(total - 7);
        assert(tail == marker);
        assert(tail[3] == name[total - 4] && tail[2] == name[total - 5]);
    }
    if has_marker(name, SUPERSEDED_SUFFIX@) {
        let marker = "."@ + SUPERSEDED_SUFFIX@;
        assert(marker =~= seq!['.', 't', 'k', 'o', 'l', 'd']);
        let tail = name.skip(total - 6);
        assert(tail == marker);
        assert(tail[2] == name[total - 4] && tail[1] == name[total - 5]);
    }
}

/// Recordings are looked for in the folders of meetings and in those of their working tracks: a
/// file is no folder, and working tracks count only where they are kept.
pub proof fn meetings_and_their_work_are_listed(
    entries: Seq<ArchiveEntry>,
    index: int,
    path: Seq<char>,
)
    requires
        0 <= index < entries.len(),
    ensures
        entries[index].is_dir ==> is_listed(entries, entries[index].path@),
        entries[index].is_dir && entries[index].has_work ==> is_listed(
            entries,
            inside(entries[index].path@, ".work"@),
        ),
        (forall|i: int| 0 <= i < entries.len() ==> !(#[trigger] entries[i]).is_dir) ==> !is_listed(
            entries,
            path,
        ),
        is_listed(entries, path) ==> exists|i: int|
            0 <= i < entries.len() && (#[trigger] entries[i]).is_dir && (path == entries[i].path@
                || path == inside(entries[i].path@, ".work"@)),
{
    if entries[index].is_dir {
        assert(is_folder_of(entries[index], entries[index].path@));
        if entries[index].has_work {
            assert(is_folder_of(entries[index], inside(entries[index].path@, ".work"@)));
        }
    }
    if is_listed(entries, path) {
        let i = choose|i: int| 0 <= i < entries.len() && is_folder_of(#[trigger] entries[i], path);
        assert(entries[i].is_dir);
    }
}

} // verus!
