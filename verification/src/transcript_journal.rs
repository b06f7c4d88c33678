//! The transcript of a recording in progress, kept on disk so that a crash does not take
//! it along.
//!
//! Each line of a journal is one record. A later record with the same number replaces an
//! earlier one, as in memory; a line that cannot be read is skipped.

use crate::orphan_recordings::AudioOnly;
use crate::paths::{components, inside, join, same_path};
use crate::recording_preferences::{is_meeting_folder, meeting_folder};
use crate::recording_saver::{
    later_line_replaces_earlier, numbered_once, upsert_transcript_segment, upserted,
    TranscriptSegment,
};
use crate::text::{
    chars_of, has_prefix, joined, piece, starts_with, text_of, texts,
};
use vstd::prelude::*;

verus! {

/// File name inside the meeting folder.
pub const JOURNAL_FILE: &'static str = "transcript.journal";

/// One line of the journal.
#[derive(Debug)]
pub enum Record {
    /// Written first: what the recording was called and when it began.
    Meeting { title: String, started_at: String },
    /// A line of transcript.
    Segment(TranscriptSegment),
}

/// What a journal says so far.
pub struct JournalModel {
    pub title: Seq<char>,
    pub started_at: Seq<char>,
    pub segments: Seq<TranscriptSegment>,
    pub skipped: int,
}

impl JournalModel {
    pub open spec fn blank() -> JournalModel {
        JournalModel {
            title: Seq::empty(),
            started_at: Seq::empty(),
            segments: Seq::empty(),
            skipped: 0,
        }
    }

    /// What it says with one more line; `None` stands for one that could not be read.
    pub open spec fn with_line(self, line: Option<Record>) -> JournalModel {
        match line {
            Some(Record::Meeting { title, started_at }) => JournalModel {
                title: title@,
                started_at: started_at@,
                ..self
            },
            Some(Record::Segment(segment)) => JournalModel {
                segments: upserted(self.segments, segment),
                ..self
            },
            None => JournalModel { skipped: self.skipped + 1, ..self },
        }
    }
}

/// What the first `upto` lines of a journal say.
pub open spec fn journal_of(lines: Seq<Option<Record>>, upto: int) -> JournalModel
    decreases upto,
{
    if upto <= 0 {
        JournalModel::blank()
    } else {
        journal_of(lines, upto - 1).with_line(lines[upto - 1])
    }
}

/// The lines of a transcript are in the order of their numbers, none twice.
pub open spec fn in_number_order(segments: Seq<TranscriptSegment>) -> bool {
    forall|i: int, j: int|
        0 <= i < j < segments.len() ==> (#[trigger] segments[i]).sequence_id < (
        #[trigger] segments[j]).sequence_id
}

/// The same lines, in the order of their numbers.
pub open spec fn ordered_version(
    ordered: Seq<TranscriptSegment>,
    segments: Seq<TranscriptSegment>,
) -> bool {
    in_number_order(ordered) && ordered.to_multiset() == segments.to_multiset()
}

/// What a journal holds, read back.
#[derive(Debug, Clone)]
pub struct Unsaved {
    pub folder_path: String,
    pub title: String,
    pub started_at: String,
    /// When the journal was last written, in milliseconds since 1970.
    pub last_updated: i64,
    pub segments: Vec<TranscriptSegment>,
    /// Set when there is no transcript to restore, only audio.
    pub audio_only: Option<AudioOnly>,
}

proof fn lemma_journal_is_numbered_once(lines: Seq<Option<Record>>, upto: int)
    requires
        0 <= upto <= lines.len(),
    ensures
        numbered_once(journal_of(lines, upto).segments),
    decreases upto,
{
    if upto > 0 {
        lemma_journal_is_numbered_once(lines, upto - 1);
        if let Some(Record::Segment(segment)) = lines[upto - 1] {
            later_line_replaces_earlier(journal_of(lines, upto - 1).segments, segment);
        }
    }
}

/// The lines in the order of their numbers.
fn in_order(segments: Vec<TranscriptSegment>) -> (ordered: Vec<TranscriptSegment>)
    requires
        numbered_once(segments@),
    ensures
        ordered_version(ordered@, segments@),
{
    let ghost given = segments@;
    let mut rest = segments;
    let mut ordered: Vec<TranscriptSegment> = Vec::new();
    let ghost mut done: int = 0;
    assert(given.skip(0) =~= given);
    assert(given.take(0) =~= Seq::<TranscriptSegment>::empty());
    while rest.len() > 0
        invariant
            0 <= done <= given.len(),
            rest@ == given.skip(done),
            numbered_once(given),
            in_number_order(ordered@),
            ordered@.to_multiset() =~= given.take(done).to_multiset(),
        decreases rest@.len(),
    {
        let ghost before = ordered@;
        let next = rest.remove(0);
        assert(next == given[done]);
        assert(rest@ =~= given.skip(done + 1));
        proof {
            assert(given.take(done + 1) =~= given.take(done).insert(done, next));
            vstd::seq_lib::to_multiset_insert(given.take(done), done, next);
            // A number that was already placed is not this one.
            assert forall|k: int| 0 <= k < before.len() implies (#[trigger] before[k]).sequence_id
                != next.sequence_id by {
                assert(before.contains(before[k]));
                vstd::seq_lib::to_multiset_contains(before, before[k]);
                vstd::seq_lib::to_multiset_contains(given.take(done), before[k]);
                assert(given.take(done).contains(before[k]));
                let m = choose|m: int|
                    0 <= m < given.take(done).len() && given.take(done)[m] == before[k];
                assert(given[m] == before[k]);
                assert(given[m].sequence_id != given[done].sequence_id);
            }
        }
        let all: usize = ordered.len();
        let mut place: usize = all;
        while place > 0 && ordered[place - 1].sequence_id > next.sequence_id
            invariant
                place <= all,
                all == ordered@.len(),
                ordered@ == before,
                in_number_order(before),
                forall|k: int|
                    place <= k < before.len() ==> (#[trigger] before[k]).sequence_id
                        > next.sequence_id,
            decreases place,
        {
            place -= 1;
        }
        proof {
            assert forall|k: int| 0 <= k < place implies (#[trigger] before[k]).sequence_id
                < next.sequence_id by {
                if k < place - 1 {
                    assert(before[k].sequence_id < before[place - 1].sequence_id);
                }
                assert(before[place - 1].sequence_id != next.sequence_id);
            }
        }
        let ghost item = next;
        ordered.insert(place, next);
        proof {
            let after = ordered@;
            assert(after =~= before.insert(place as int, item));
            vstd::seq_lib::to_multiset_insert(before, place as int, item);
            assert forall|i: int, j: int| 0 <= i < j < after.len() implies (
            #[trigger] after[i]).sequence_id < (#[trigger] after[j]).sequence_id by {
                if j == place {
                    assert(after[i] == before[i]);
                } else if i == place {
                    assert(after[j] == before[j - 1]);
                } else {
                    let from = if i < place {
                        i
                    } else {
                        i - 1
                    };
                    let to = if j < place {
                        j
                    } else {
                        j - 1
                    };
                    assert(after[i] == before[from] && after[j] == before[to]);
                }
            }
            done = done + 1;
        }
    }
    assert(given.take(done) =~= given);
    ordered
}

/// Reads a journal, from its lines. `None` stands for a line that does not open: torn by a
/// crash, or sealed with a key that is no longer there. Also says how many those are.
pub fn read(folder: &str, lines: Vec<Option<Record>>, last_updated: i64) -> (journal: (
    Unsaved,
    usize,
))
    ensures
        ({
            let said = journal_of(lines@, lines@.len() as int);
            &&& journal.0.folder_path@ == folder@
            &&& journal.0.title@ == said.title
            &&& journal.0.started_at@ == said.started_at
            &&& journal.0.last_updated == last_updated
            &&& ordered_version(journal.0.segments@, said.segments)
            &&& journal.0.audio_only is None
            &&& journal.1 == said.skipped
        }),
{
    let ghost given = lines@;
    let mut title = String::new();
    let mut started_at = String::new();
    let mut segments: Vec<TranscriptSegment> = Vec::new();
    let mut skipped: usize = 0;
    let mut rest = lines;
    let total: usize = rest.len();
    let ghost mut done: int = 0;
    assert(given.skip(0) =~= given);
    assert(segments@ =~= Seq::<TranscriptSegment>::empty());
    while rest.len() > 0
        invariant
            0 <= done <= given.len(),
            total == given.len(),
            rest@ == given.skip(done),
            title@ == journal_of(given, done).title,
            started_at@ == journal_of(given, done).started_at,
            segments@ == journal_of(given, done).segments,
            skipped == journal_of(given, done).skipped,
            skipped <= done,
        decreases rest@.len(),
    {
        let line = rest.remove(0);
        assert(line == given[done]);
        assert(rest@ =~= given.skip(done + 1));
        match line {
            Some(Record::Meeting { title: called, started_at: began }) => {
                title = called;
                started_at = began;
            },
            Some(Record::Segment(segment)) => {
                upsert_transcript_segment(&mut segments, segment);
            },
            None => {
                skipped += 1;
            },
        }
        proof {
            done = done + 1;
        }
    }
    proof {
        lemma_journal_is_numbered_once(given, given.len() as int);
    }
    let ordered = in_order(segments);
    (
        Unsaved {
            folder_path: folder.to_owned(),
            title,
            started_at,
            last_updated,
            segments: ordered,
            audio_only: None,
        },
        skipped,
    )
}

/// A journal reads back with its corrections applied: of the records with one number the
/// last one counts, and lines that cannot be read change nothing.
pub proof fn last_record_counts(
    lines: Seq<Option<Record>>,
    last: int,
    upto: int,
    segment: TranscriptSegment,
)
    requires
        0 <= last < upto <= lines.len(),
        lines[last] == Some(Record::Segment(segment)),
        forall|i: int|
            last < i < upto ==> match #[trigger] lines[i] {
                Some(Record::Segment(other)) => other.sequence_id != segment.sequence_id,
                _ => true,
            },
    ensures
        journal_of(lines, upto).segments.contains(segment),
        forall|other: TranscriptSegment|
            #[trigger] journal_of(lines, upto).segments.contains(other) && other.sequence_id
                == segment.sequence_id ==> other == segment,
    decreases upto,
{
    lemma_journal_is_numbered_once(lines, upto - 1);
    let before = journal_of(lines, upto - 1).segments;
    if last == upto - 1 {
        later_line_replaces_earlier(before, segment);
    } else {
        last_record_counts(lines, last, upto - 1, segment);
        match lines[upto - 1] {
            Some(Record::Segment(other)) => {
                later_line_replaces_earlier(before, other);
                assert(journal_of(lines, upto).segments.contains(segment));
                assert forall|another: TranscriptSegment|
                    #[trigger] journal_of(lines, upto).segments.contains(another)
                        && another.sequence_id == segment.sequence_id implies another
                    == segment by {
                    assert(before.contains(another));
                }
            },
            _ => {},
        }
    }
}

/// Whether a journal can be read at all: not while the archive is locked.
pub fn may_read(protected: bool, unlocked: bool) -> (allowed: Result<(), String>)
    ensures
        match allowed {
            Ok(()) => !protected || unlocked,
            Err(reason) => protected && !unlocked && reason@ == "the archive is locked"@,
        },
{
    if protected && !unlocked {
        Err("the archive is locked".to_owned())
    } else {
        Ok(())
    }
}

/// What a journal was begun with, if it kept either of the two.
pub fn header(journal: Option<Unsaved>) -> (kept: Option<(String, String)>)
    ensures
        match journal {
            Some(read) => if read.title@.len() > 0 || read.started_at@.len() > 0 {
                kept == Some((read.title, read.started_at))
            } else {
                kept is None
            },
            None => kept is None,
        },
{
    match journal {
        Some(read) => if !read.title.as_str().is_empty() || !read.started_at.as_str().is_empty() {
            Some((read.title, read.started_at))
        } else {
            None
        },
        None => None,
    }
}

/// A path without the prefix of a resolved one, unless it leads to another machine.
pub open spec fn without_verbatim(path: Seq<char>) -> Seq<char> {
    if starts_with(path, "\\\\?\\"@) && !starts_with(path.skip("\\\\?\\"@.len() as int), "UNC\\"@) {
        path.skip("\\\\?\\"@.len() as int)
    } else {
        path
    }
}

/// A resolved path as the recorder wrote it.
pub fn plain(path: &str) -> (text: String)
    ensures
        text@ == without_verbatim(path@),
{
    let chars = chars_of(path);
    let verbatim = chars_of("\\\\?\\");
    if has_prefix(&chars, &verbatim) {
        let rest = piece(&chars, verbatim.len(), chars.len());
        assert(rest@ =~= path@.skip(verbatim@.len() as int));
        let share = chars_of("UNC\\");
        if !has_prefix(&rest, &share) {
            return text_of(&rest);
        }
    }
    path.to_owned()
}

/// The journal of the recording now running, by its folder.
pub struct CurrentJournal {
    pub folder: Option<String>,
}

impl CurrentJournal {
    /// The folder being recorded into, if there is one.
    pub open spec fn running(&self) -> Option<Seq<char>> {
        match self.folder {
            Some(open) => Some(open@),
            None => None,
        }
    }

    pub fn new() -> (current: CurrentJournal)
        ensures
            current.folder is None,
    {
        CurrentJournal { folder: None }
    }
}

/// The journal of a recording was opened and its header written.
pub fn begin(current: &mut CurrentJournal, folder: String)
    ensures
        final(current).folder == Some(folder),
{
    current.folder = Some(folder);
}

/// The file that a line of transcript is added to: that of the running journal.
pub open spec fn journal_file(current: CurrentJournal) -> Option<Seq<char>> {
    match current.folder {
        Some(folder) => Some(inside(folder@, JOURNAL_FILE@)),
        None => None,
    }
}

/// Where a line of transcript is added, if a journal is running.
pub fn append(current: &CurrentJournal) -> (file: Option<String>)
    ensures
        match file {
            Some(path) => journal_file(*current) == Some(path@),
            None => journal_file(*current) is None,
        },
{
    match &current.folder {
        Some(folder) => Some(join(folder.as_str(), JOURNAL_FILE)),
        None => None,
    }
}

/// Closes the running journal. The file stays until the meeting is saved, and no line is
/// added to it any more.
pub fn end(current: &mut CurrentJournal)
    ensures
        final(current).folder is None,
        journal_file(*final(current)) is None,
{
    current.folder = None;
}

/// Two paths lead to the same folder, prefix or not.
pub open spec fn same_folder(a: Seq<char>, b: Seq<char>) -> bool {
    components(without_verbatim(a)) == components(without_verbatim(b))
}

/// Whether a folder is the one being recorded into right now.
pub fn is_active(current: &CurrentJournal, folder: &str) -> (active: bool)
    ensures
        active == (current.folder matches Some(open) && same_folder(open@, folder@)),
{
    match &current.folder {
        Some(open) => {
            let a = plain(open.as_str());
            let b = plain(folder);
            same_path(a.as_str(), b.as_str())
        },
        None => false,
    }
}

/// An entry of a recordings folder.
#[derive(Debug)]
pub struct FolderEntry {
    pub path: String,
    pub has_journal: bool,
    pub has_recording: bool,
}

/// Some path of a list leads to the same place.
pub open spec fn lists_place(list: Seq<Seq<char>>, path: Seq<char>) -> bool {
    exists|i: int| 0 <= i < list.len() && components(#[trigger] list[i]) == components(path)
}

fn has_place(list: &Vec<String>, path: &str) -> (found: bool)
    ensures
        found == lists_place(texts(list@), path@),
{
    let mut index: usize = 0;
    while index < list.len()
        invariant
            index <= list@.len(),
            forall|i: int|
                0 <= i < index ==> components(#[trigger] texts(list@)[i]) != components(path@),
        decreases list@.len() - index,
    {
        assert(texts(list@)[index as int] == list@[index as int]@);
        if same_path(list[index].as_str(), path) {
            return true;
        }
        index += 1;
    }
    false
}

/// The folders among the first `upto` entries that hold a journal or audio, each once, and
/// not the one being recorded into.
pub open spec fn found_among(
    entries: Seq<FolderEntry>,
    active: Option<Seq<char>>,
    upto: int,
) -> Seq<Seq<char>>
    decreases upto,
{
    if upto <= 0 {
        Seq::empty()
    } else {
        let before = found_among(entries, active, upto - 1);
        let entry = entries[upto - 1];
        let folder = without_verbatim(entry.path@);
        let running = active matches Some(open) && same_folder(open, folder);
        if (entry.has_journal || entry.has_recording) && !running && !lists_place(before, folder) {
            before.push(folder)
        } else {
            before
        }
    }
}

/// Every meeting folder with a journal or with audio, other than the one being recorded
/// into.
pub fn find(entries: &Vec<FolderEntry>, current: &CurrentJournal) -> (found: Vec<String>)
    ensures
        texts(found@) == found_among(
            entries@,
            current.running(),
            entries@.len() as int,
        ),
{
    let ghost active = current.running();
    let mut found: Vec<String> = Vec::new();
    let mut index: usize = 0;
    assert(texts(found@) =~= found_among(entries@, active, 0));
    while index < entries.len()
        invariant
            index <= entries@.len(),
            active == current.running(),
            texts(found@) == found_among(entries@, active, index as int),
        decreases entries@.len() - index,
    {
        let entry = &entries[index];
        let folder = plain(entry.path.as_str());
        let ghost had = found@;
        if (entry.has_journal || entry.has_recording) && !is_active(current, folder.as_str())
            && !has_place(&found, folder.as_str()) {
            let ghost name = folder@;
            found.push(folder);
            assert(texts(found@) =~= texts(had).push(name));
        }
        index += 1;
    }
    found
}

/// What is done next with a folder that holds a journal or audio.
#[derive(Clone, Copy, Debug, PartialEq, Eq, Structural)]
pub enum FolderStep {
    /// The library has it: its journal is a leftover.
    RemoveJournal,
    /// The owner chose not to restore it.
    Skip,
    ReadJournal,
}

/// What is done with a folder before its journal is read.
pub fn folder_step(saved: bool, dismissed: bool) -> (step: FolderStep)
    ensures
        step == if saved {
            FolderStep::RemoveJournal
        } else if dismissed {
            FolderStep::Skip
        } else {
            FolderStep::ReadJournal
        },
{
    if saved {
        FolderStep::RemoveJournal
    } else if dismissed {
        FolderStep::Skip
    } else {
        FolderStep::ReadJournal
    }
}

/// What is done with a folder once its journal was read.
#[derive(Debug)]
pub enum JournalStep {
    /// There is a transcript to restore.
    Offer(Unsaved),
    /// There may be audio: probe it. What the journal was called and when it began.
    Probe(String, String),
    /// Nothing is offered while something is being recorded.
    Skip,
    /// The archive is locked: no journal opens, and neither would audio.
    Fail(String),
}

/// What is done with a folder once its journal was read. A journal that cannot be read
/// counts as none, unless the archive is locked.
pub fn journal_step(
    journal: Result<Option<Unsaved>, String>,
    archive_open: bool,
    recording: bool,
) -> (step: JournalStep)
    ensures
        match journal {
            Err(error) => if !archive_open {
                step == JournalStep::Fail(error)
            } else if recording {
                step is Skip
            } else {
                step matches JournalStep::Probe(title, started) && title@.len() == 0
                    && started@.len() == 0
            },
            Ok(None) => if recording {
                step is Skip
            } else {
                step matches JournalStep::Probe(title, started) && title@.len() == 0
                    && started@.len() == 0
            },
            Ok(Some(read)) => if read.segments@.len() > 0 {
                step == JournalStep::Offer(read)
            } else if recording {
                step is Skip
            } else {
                step == JournalStep::Probe(read.title, read.started_at)
            },
        },
{
    match journal {
        Err(error) => {
            if !archive_open {
                JournalStep::Fail(error)
            } else if recording {
                JournalStep::Skip
            } else {
                JournalStep::Probe(String::new(), String::new())
            }
        },
        Ok(None) => if recording {
            JournalStep::Skip
        } else {
            JournalStep::Probe(String::new(), String::new())
        },
        Ok(Some(read)) => if read.segments.len() > 0 {
            JournalStep::Offer(read)
        } else if recording {
            JournalStep::Skip
        } else {
            JournalStep::Probe(read.title, read.started_at)
        },
    }
}

/// The newest of the moments, or zero where there is none.
pub open spec fn newest_of(moments: Seq<i64>) -> int
    decreases moments.len(),
{
    if moments.len() == 0 {
        0
    } else {
        let before = newest_of(moments.drop_last());
        let last = moments.last() as int;
        if moments.len() == 1 || last > before {
            last
        } else {
            before
        }
    }
}

/// When a recording last wrote anything, from when each of its files was written.
pub fn last_written(moments: &Vec<i64>) -> (newest: i64)
    ensures
        newest == newest_of(moments@),
{
    let mut newest: i64 = 0;
    let mut index: usize = 0;
    assert(moments@.take(0) =~= Seq::<i64>::empty());
    while index < moments.len()
        invariant
            index <= moments@.len(),
            newest == newest_of(moments@.take(index as int)),
        decreases moments@.len() - index,
    {
        assert(moments@.take(index + 1).drop_last() =~= moments@.take(index as int));
        if index == 0 || moments[index] > newest {
            newest = moments[index];
        }
        index += 1;
    }
    assert(moments@.take(moments@.len() as int) =~= moments@);
    newest
}

/// What is offered of a folder that has only audio.
pub fn audio_offer(
    folder: &str,
    title: String,
    started_at: String,
    last_written: i64,
    audio: AudioOnly,
) -> (offer: Unsaved)
    ensures
        offer.folder_path@ == folder@,
        offer.title == title,
        offer.started_at == started_at,
        offer.last_updated == last_written,
        offer.segments@.len() == 0,
        offer.audio_only == Some(audio),
{
    Unsaved {
        folder_path: folder.to_owned(),
        title,
        started_at,
        last_updated: last_written,
        segments: Vec::new(),
        audio_only: Some(audio),
    }
}

/// The newest come first; of two that are equally new, the one that came first.
pub open spec fn with_offer(offers: Seq<Unsaved>, offer: Unsaved) -> Seq<Unsaved>
    decreases offers.len(),
{
    if offers.len() == 0 || offers.last().last_updated >= offer.last_updated {
        offers.push(offer)
    } else {
        with_offer(offers.drop_last(), offer).push(offers.last())
    }
}

/// Newest first.
pub open spec fn newest_first(offers: Seq<Unsaved>) -> bool {
    forall|i: int, j: int|
        0 <= i < j < offers.len() ==> (#[trigger] offers[i]).last_updated >= (
        #[trigger] offers[j]).last_updated
}

proof fn lemma_offers_stay_newest_first(offers: Seq<Unsaved>, offer: Unsaved)
    requires
        newest_first(offers),
    ensures
        newest_first(with_offer(offers, offer)),
        with_offer(offers, offer).len() == offers.len() + 1,
        forall|i: int|
            0 <= i < with_offer(offers, offer).len() ==> (#[trigger] with_offer(
                offers,
                offer,
            )[i]).last_updated >= offer.last_updated || (offers.len() > 0 && with_offer(
                offers,
                offer,
            )[i].last_updated >= offers.last().last_updated),
    decreases offers.len(),
{
    let after = with_offer(offers, offer);
    if offers.len() == 0 || offers.last().last_updated >= offer.last_updated {
        assert forall|i: int, j: int| 0 <= i < j < after.len() implies (
        #[trigger] after[i]).last_updated >= (#[trigger] after[j]).last_updated by {
            if j == offers.len() {
                assert(offers[i].last_updated >= offers[offers.len() - 1].last_updated);
            }
        }
    } else {
        let shorter = offers.drop_last();
        lemma_offers_stay_newest_first(shorter, offer);
        let inner = with_offer(shorter, offer);
        assert(shorter.len() > 0 ==> shorter.last().last_updated >= offers.last().last_updated);
        assert forall|i: int| 0 <= i < inner.len() implies (#[trigger] inner[i]).last_updated
            >= offers.last().last_updated by {}
        assert forall|i: int, j: int| 0 <= i < j < after.len() implies (
        #[trigger] after[i]).last_updated >= (#[trigger] after[j]).last_updated by {
            assert(after[i] == inner[i]);
            if j < inner.len() {
                assert(after[j] == inner[j]);
            }
        }
    }
}

/// Adds an offer to the list, which is kept newest first.
pub fn add_offer(offers: &mut Vec<Unsaved>, offer: Unsaved)
    requires
        newest_first(old(offers)@),
        old(offers)@.len() < usize::MAX,
    ensures
        final(offers)@ == with_offer(old(offers)@, offer),
        newest_first(final(offers)@),
{
    let ghost before = offers@;
    let ghost item = offer;
    proof {
        lemma_offers_stay_newest_first(before, item);
    }
    let mut place: usize = offers.len();
    assert(before.take(place as int) =~= before);
    assert(with_offer(before, item) =~= with_offer(before.take(place as int), item) + before.skip(
        place as int,
    ));
    while place > 0 && offers[place - 1].last_updated < offer.last_updated
        invariant
            place <= before.len(),
            offers@ == before,
            item == offer,
            with_offer(before, item) == with_offer(before.take(place as int), item) + before.skip(
                place as int,
            ),
        decreases place,
    {
        let ghost head = before.take(place as int);
        assert(head.drop_last() =~= before.take(place - 1));
        proof {
            let shorter = with_offer(before.take(place - 1), item);
            assert(shorter.push(head.last()) + before.skip(place as int) =~= shorter
                + before.skip(place - 1));
        }
        place -= 1;
    }
    offers.insert(place, offer);
    assert(with_offer(before.take(place as int), item) == before.take(place as int).push(item));
    assert(offers@ =~= before.take(place as int).push(item) + before.skip(place as int));
}

/// Only a meeting inside the recording folders is touched. The path is resolved; an error
/// says why it could not be.
pub fn checked_folder(resolved: Result<String, String>, roots: &Vec<String>) -> (folder: Result<
    String,
    String,
>)
    ensures
        match resolved {
            Err(error) => folder matches Err(reason) && reason@ == "No such recording folder: "@
                + error@,
            Ok(path) => if meeting_folder(path@, texts(roots@)) {
                folder == Ok::<String, String>(path)
            } else {
                folder matches Err(reason) && reason@ == "That folder is not a recording folder"@
            },
        },
{
    match resolved {
        Err(error) => Err(joined("No such recording folder: ", error.as_str())),
        Ok(path) => if is_meeting_folder(path.as_str(), roots) {
            Ok(path)
        } else {
            Err("That folder is not a recording folder".to_owned())
        },
    }
}

/// One more line of a journal says one thing more: a header is what the recording was called
/// and when it began from then on, a line of transcript changes the lines alone, and a line
/// that cannot be read is counted and changes nothing. Before the first line nothing is said.
pub proof fn journal_is_read_line_by_line(lines: Seq<Option<Record>>, at: int)
    requires
        0 <= at < lines.len(),
    ensures
        ({
            let before = journal_of(lines, at);
            let after = journal_of(lines, at + 1);
            &&& lines[at] matches Some(Record::Meeting { title, started_at }) ==> {
                &&& after.title == title@ && after.started_at == started_at@
                &&& after.segments == before.segments && after.skipped == before.skipped
            }
            &&& lines[at] matches Some(Record::Segment(segment)) ==> {
                &&& after.title == before.title && after.started_at == before.started_at
                &&& after.skipped == before.skipped
                &&& after.segments.contains(segment)
            }
            &&& lines[at] is None ==> {
                &&& after.title == before.title && after.started_at == before.started_at
                &&& after.segments == before.segments && after.skipped == before.skipped + 1
            }
        }),
        journal_of(lines, 0).title.len() == 0,
        journal_of(lines, 0).started_at.len() == 0,
        journal_of(lines, 0).segments.len() == 0,
        journal_of(lines, 0).skipped == 0,
{
    lemma_journal_is_numbered_once(lines, at);
    if let Some(Record::Segment(segment)) = lines[at] {
        later_line_replaces_earlier(journal_of(lines, at).segments, segment);
    }
}

/// Nothing is read from a journal that was not written into it.
pub proof fn nothing_is_invented(lines: Seq<Option<Record>>, upto: int, segment: TranscriptSegment)
    requires
        0 <= upto <= lines.len(),
        journal_of(lines, upto).segments.contains(segment),
    ensures
        exists|i: int|
            0 <= i < upto && #[trigger] lines[i] == Some(Record::Segment(segment)),
    decreases upto,
{
    if upto > 0 {
        lemma_journal_is_numbered_once(lines, upto - 1);
        let before = journal_of(lines, upto - 1).segments;
        match lines[upto - 1] {
            Some(Record::Segment(last)) => {
                later_line_replaces_earlier(before, last);
                if segment != last {
                    if segment.sequence_id == last.sequence_id {
                        assert(upserted(before, last).contains(segment));
                    } else {
                        assert(upserted(before, last).contains(segment));
                        assert(before.contains(segment));
                        nothing_is_invented(lines, upto - 1, segment);
                    }
                }
            },
            _ => {
                nothing_is_invented(lines, upto - 1, segment);
            },
        }
    }
}

/// A path as the system resolves it loses the prefix that it got there and nothing else; a
/// path on another machine, and one without the prefix, stay as they are.
pub proof fn only_the_prefix_is_taken_off(path: Seq<char>)
    ensures
        !starts_with(path, "UNC\\"@) ==> without_verbatim("\\\\?\\"@ + path) == path,
        starts_with(path, "UNC\\"@) ==> without_verbatim("\\\\?\\"@ + path) == "\\\\?\\"@ + path,
        !starts_with(path, "\\\\?\\"@) ==> without_verbatim(path) == path,
{
    let whole = "\\\\?\\"@ + path;
    assert(whole.take("\\\\?\\"@.len() as int) =~= "\\\\?\\"@);
    assert(whole.skip("\\\\?\\"@.len() as int) =~= path);
}

/// A folder of one of the first `upto` entries, as it is listed: it holds a journal or audio,
/// and is not the one being recorded into.
pub open spec fn is_left_behind(
    entries: Seq<FolderEntry>,
    active: Option<Seq<char>>,
    upto: int,
    folder: Seq<char>,
) -> bool {
    exists|i: int|
        0 <= i < upto && without_verbatim((#[trigger] entries[i]).path@) == folder && (
        entries[i].has_journal || entries[i].has_recording) && !(active matches Some(open)
            && same_folder(open, folder))
}

/// What is found is what was left behind: every folder on the list holds a journal or audio
/// and is not being recorded into, no place is listed twice, and no such folder is missing.
pub proof fn all_that_was_left_behind_is_found(
    entries: Seq<FolderEntry>,
    active: Option<Seq<char>>,
    upto: int,
)
    requires
        0 <= upto <= entries.len(),
    ensures
        ({
            let found = found_among(entries, active, upto);
            &&& forall|i: int|
                0 <= i < found.len() ==> is_left_behind(entries, active, upto, #[trigger] found[i])
            &&& forall|i: int, j: int|
                0 <= i < j < found.len() ==> components(#[trigger] found[i]) != components(
                    #[trigger] found[j],
                )
            &&& forall|folder: Seq<char>| #[trigger]
                is_left_behind(entries, active, upto, folder) ==> lists_place(found, folder)
        }),
    decreases upto,
{
    let found = found_among(entries, active, upto);
    if upto > 0 {
        all_that_was_left_behind_is_found(entries, active, upto - 1);
        let before = found_among(entries, active, upto - 1);
        let entry = entries[upto - 1];
        let last = without_verbatim(entry.path@);
        assert forall|i: int| 0 <= i < found.len() implies is_left_behind(
            entries,
            active,
            upto,
            #[trigger] found[i],
        ) by {
            if i < before.len() {
                assert(found[i] == before[i]);
                assert(is_left_behind(entries, active, upto - 1, before[i]));
            } else {
                assert(without_verbatim(entries[upto - 1].path@) == found[i]);
            }
        }
        assert forall|i: int, j: int| 0 <= i < j < found.len() implies components(
            #[trigger] found[i],
        ) != components(#[trigger] found[j]) by {
            assert(found[i] == before[i]);
            if j < before.len() {
                assert(found[j] == before[j]);
            }
        }
        assert forall|folder: Seq<char>| #[trigger]
            is_left_behind(entries, active, upto, folder) implies lists_place(found, folder) by {
            if is_left_behind(entries, active, upto - 1, folder) {
                assert(lists_place(before, folder));
                let k = choose|k: int|
                    0 <= k < before.len() && components(#[trigger] before[k]) == components(folder);
                assert(found[k] == before[k]);
            } else {
                assert(folder == last);
                if lists_place(before, last) {
                    let k = choose|k: int|
                        0 <= k < before.len() && components(#[trigger] before[k]) == components(
                            last,
                        );
                    assert(found[k] == before[k]);
                } else {
                    assert(found == before.push(last));
                    assert(found[found.len() - 1] == last);
                }
            }
        }
    }
}

/// The newest moment is one of them, and none is newer.
pub proof fn newest_moment_is_one_of_them(moments: Seq<i64>)
    ensures
        moments.len() == 0 ==> newest_of(moments) == 0,
        moments.len() > 0 ==> exists|i: int|
            0 <= i < moments.len() && #[trigger] moments[i] == newest_of(moments),
        forall|i: int| 0 <= i < moments.len() ==> #[trigger] moments[i] <= newest_of(moments),
    decreases moments.len(),
{
    if moments.len() > 0 {
        let shorter = moments.drop_last();
        newest_moment_is_one_of_them(shorter);
        if newest_of(moments) == moments.last() {
            assert(moments[moments.len() - 1] == newest_of(moments));
        } else {
            let i = choose|i: int| 0 <= i < shorter.len() && #[trigger] shorter[i] == newest_of(shorter);
            assert(moments[i] == newest_of(moments));
        }
        assert forall|i: int| 0 <= i < moments.len() implies #[trigger] moments[i] <= newest_of(
            moments,
        ) by {
            if i < shorter.len() {
                assert(shorter[i] <= newest_of(shorter));
            }
        }
    }
}

/// An offer was put in at `place`: behind all that are not older, before all that are.
pub open spec fn is_offered_at(
    before: Seq<Unsaved>,
    after: Seq<Unsaved>,
    offer: Unsaved,
    place: int,
) -> bool {
    &&& 0 <= place <= before.len()
    &&& after == before.insert(place, offer)
    &&& forall|i: int| 0 <= i < place ==> (#[trigger] before[i]).last_updated >= offer.last_updated
    &&& forall|i: int|
        place <= i < before.len() ==> (#[trigger] before[i]).last_updated < offer.last_updated
}

/// An offer is put behind those that are not older, and no other is moved or lost.
pub proof fn newest_offer_comes_first(offers: Seq<Unsaved>, offer: Unsaved)
    requires
        newest_first(offers),
    ensures
        exists|place: int| #[trigger] is_offered_at(offers, with_offer(offers, offer), offer, place),
    decreases offers.len(),
{
    let after = with_offer(offers, offer);
    if offers.len() == 0 || offers.last().last_updated >= offer.last_updated {
        let place = offers.len() as int;
        assert(after =~= offers.insert(place, offer));
        assert forall|i: int| 0 <= i < place implies (#[trigger] offers[i]).last_updated
            >= offer.last_updated by {
            if i < offers.len() - 1 {
                assert(offers[i].last_updated >= offers[offers.len() - 1].last_updated);
            }
        }
        assert(is_offered_at(offers, after, offer, place));
    } else {
        let shorter = offers.drop_last();
        newest_offer_comes_first(shorter, offer);
        let inner = with_offer(shorter, offer);
        let place = choose|place: int| #[trigger] is_offered_at(shorter, inner, offer, place);
        assert(after =~= offers.insert(place, offer));
        assert forall|i: int| 0 <= i < place implies (#[trigger] offers[i]).last_updated
            >= offer.last_updated by {
            assert(shorter[i] == offers[i]);
        }
        assert forall|i: int| place <= i < offers.len() implies (
        #[trigger] offers[i]).last_updated < offer.last_updated by {
            if i < shorter.len() {
                assert(shorter[i] == offers[i]);
            }
        }
        assert(is_offered_at(offers, after, offer, place));
    }
}

/// What is read back of a journal is in the order of the numbers, and is what the journal held:
/// every line of it, and no other.
pub proof fn lines_are_put_in_order(
    ordered: Seq<TranscriptSegment>,
    segments: Seq<TranscriptSegment>,
    i: int,
    j: int,
)
    requires
        ordered_version(ordered, segments),
    ensures
        0 <= i < j < ordered.len() ==> ordered[i].sequence_id < ordered[j].sequence_id,
        ordered.len() == segments.len(),
        forall|line: TranscriptSegment| #[trigger]
            ordered.contains(line) <==> segments.contains(line),
{
    broadcast use vstd::seq_lib::group_to_multiset_ensures;

    assert(ordered.to_multiset().len() == segments.to_multiset().len());
    assert forall|line: TranscriptSegment| #[trigger]
        ordered.contains(line) <==> segments.contains(line) by {
        vstd::seq_lib::to_multiset_contains(ordered, line);
        vstd::seq_lib::to_multiset_contains(segments, line);
    }
}

/// A line is added to the journal of the folder that is being recorded into, and to none where
/// nothing is.
pub proof fn lines_go_to_the_running_journal(folder: String)
    ensures
        journal_file(CurrentJournal { folder: Some(folder) }) == Some(
            inside(folder@, "transcript.journal"@),
        ),
        journal_file(CurrentJournal { folder: None }) is None,
{
}

} // verus!
