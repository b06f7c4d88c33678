//! A pass over every recording of an archive, and what passes come to together.
//!
//! The caller looks at each file and converts it; where the pass stands says which one is
//! next and how far it is.

use crate::archive_encryption::{
    are_recordings_of, convert_all, converted_among, count_of, failed_among, failures,
    is_recording_path, reports, untouched_among, ConversionReport, Direction, Visited,
};
use crate::digest::sha256;
use crate::paths::components;
use crate::sorting::{
    in_path_order, lemma_names_order_is_strict, names_before, names_place, path_before,
};
use vstd::prelude::*;

verus! {

/// What the caller is to do next.
#[derive(Debug)]
pub enum PassStep {
    /// Say that so many of the files are behind, then look whether the next one is
    /// encrypted.
    Look { done: usize, total: usize },
    /// Convert the file with this number.
    Convert(usize),
    /// Say that all files are behind: this is what came of them.
    Finish { done: usize, total: usize, report: ConversionReport },
}

/// What the caller says happened.
#[derive(Debug)]
pub enum PassEvent {
    /// The file looks encrypted, or not.
    Looked(bool),
    Converted(Result<(), String>),
}

/// A pass over the files of an archive.
pub struct ArchivePass {
    pub direction: Direction,
    pub files: Vec<String>,
    pub visited: Vec<Visited>,
    /// A file was looked at and is to be converted; whether it looked encrypted.
    pub converting: Option<bool>,
}

/// A file that was visited, as plain data.
pub struct VisitModel {
    pub path: Seq<char>,
    pub encrypted: bool,
    pub error: Option<String>,
}

/// A pass as plain data.
pub struct PassModel {
    pub direction: Direction,
    pub files: Seq<String>,
    pub visited: Seq<VisitModel>,
    pub converting: Option<bool>,
}

pub open spec fn visits(visited: Seq<Visited>) -> Seq<VisitModel> {
    visited.map_values(
        |file: Visited| VisitModel { path: file.path@, encrypted: file.encrypted, error: file.error },
    )
}

impl View for ArchivePass {
    type V = PassModel;

    open spec fn view(&self) -> PassModel {
        PassModel {
            direction: self.direction,
            files: self.files@,
            visited: visits(self.visited@),
            converting: self.converting,
        }
    }
}

impl PassModel {
    /// Files are visited one after the other, and only one that is left can be converting.
    pub open spec fn valid(self) -> bool {
        &&& self.visited.len() <= self.files.len()
        &&& self.converting is Some ==> self.visited.len() < self.files.len()
        &&& self.converting matches Some(encrypted) ==> self.direction.wants(encrypted)
    }

    /// The event belongs to where the pass stands.
    pub open spec fn expects(self, event: PassEvent) -> bool {
        match event {
            PassEvent::Looked(_) => self.converting is None && self.visited.len()
                < self.files.len(),
            PassEvent::Converted(_) => self.converting is Some,
        }
    }

    /// One more file is behind.
    pub open spec fn with_visit(self, encrypted: bool, error: Option<String>) -> PassModel {
        let file = VisitModel {
            path: self.files[self.visited.len() as int]@,
            encrypted,
            error,
        };
        PassModel { visited: self.visited.push(file), converting: None, ..self }
    }

    /// The pass after an event: a file that is already so is left alone.
    pub open spec fn next(self, event: PassEvent) -> PassModel {
        match event {
            PassEvent::Looked(encrypted) => if self.direction.wants(encrypted) {
                PassModel { converting: Some(encrypted), ..self }
            } else {
                self.with_visit(encrypted, None)
            },
            PassEvent::Converted(outcome) => self.with_visit(
                self.converting.unwrap(),
                match outcome {
                    Ok(_) => None,
                    Err(reason) => Some(reason),
                },
            ),
        }
    }

    /// How far the pass says it is, where it says so: before each file, and once when all
    /// are behind.
    pub open spec fn told(self) -> Option<(int, int)> {
        if self.converting is None {
            Some((self.visited.len() as int, self.files.len() as int))
        } else {
            None
        }
    }

    /// The step tells how far the pass is, and asks for what is next.
    pub open spec fn asks(self, step: PassStep) -> bool {
        match step {
            PassStep::Look { done, total } => self.told() == Some((done as int, total as int))
                && done < total,
            PassStep::Convert(index) => self.told() is None && index == self.visited.len(),
            PassStep::Finish { done, total, report } => self.told() == Some(
                (done as int, total as int),
            ) && done == total,
        }
    }
}

impl ArchivePass {
    /// Where the pass stands.
    fn ask(&self) -> (step: PassStep)
        requires
            self@.valid(),
        ensures
            self@.asks(step),
            step matches PassStep::Finish { done, total, report } ==> reports(
                report,
                self.visited@,
                |encrypted: bool| self.direction.wants(encrypted),
            ),
    {
        let done: usize = self.visited.len();
        let total: usize = self.files.len();
        assert(self@.visited.len() == done);
        if self.converting.is_some() {
            PassStep::Convert(done)
        } else if done < total {
            PassStep::Look { done, total }
        } else {
            PassStep::Finish { done, total, report: convert_all(&self.visited, self.direction) }
        }
    }

    pub fn begin(direction: Direction, files: Vec<String>) -> (begun: (ArchivePass, PassStep))
        ensures
            begun.0@ == (PassModel {
                direction,
                files: files@,
                visited: Seq::empty(),
                converting: None,
            }),
            begun.0@.valid(),
            begun.0@.asks(begun.1),
            begun.1 matches PassStep::Finish { done, total, report } ==> reports(
                report,
                begun.0.visited@,
                |encrypted: bool| direction.wants(encrypted),
            ),
    {
        let pass = ArchivePass { direction, files, visited: Vec::new(), converting: None };
        assert(pass@.visited =~= Seq::<VisitModel>::empty());
        let step = pass.ask();
        (pass, step)
    }

    fn visit(&mut self, encrypted: bool, error: Option<String>)
        requires
            old(self)@.valid(),
            old(self)@.visited.len() < old(self)@.files.len(),
        ensures
            final(self)@ == old(self)@.with_visit(encrypted, error),
    {
        let ghost before = self.visited@;
        let index: usize = self.visited.len();
        assert(self@.visited.len() == index);
        let path = self.files[index].clone();
        self.visited.push(Visited { path, encrypted, error });
        self.converting = None;
        assert(visits(self.visited@) =~= visits(before).push(
            VisitModel { path: path@, encrypted, error },
        ));
    }

    /// Takes what came of the last step and says what is next.
    pub fn step(&mut self, event: PassEvent) -> (step: PassStep)
        requires
            old(self)@.valid(),
            old(self)@.expects(event),
        ensures
            final(self)@ == old(self)@.next(event),
            final(self)@.valid(),
            final(self)@.asks(step),
            step matches PassStep::Finish { done, total, report } ==> reports(
                report,
                final(self).visited@,
                |encrypted: bool| old(self).direction.wants(encrypted),
            ),
    {
        match event {
            PassEvent::Looked(encrypted) => {
                if self.direction.wants_conversion(encrypted) {
                    self.converting = Some(encrypted);
                } else {
                    self.visit(encrypted, None);
                }
            },
            PassEvent::Converted(outcome) => {
                let encrypted = match self.converting {
                    Some(encrypted) => encrypted,
                    None => false,
                };
                let error = match outcome {
                    Ok(_) => None,
                    Err(reason) => Some(reason),
                };
                self.visit(encrypted, error);
            },
        }
        self.ask()
    }
}

/// The events belong to a pass, one after the other.
pub open spec fn expected(pass: PassModel, events: Seq<PassEvent>) -> bool
    decreases events.len(),
{
    events.len() == 0 || (pass.expects(events[0]) && expected(
        pass.next(events[0]),
        events.drop_first(),
    ))
}

/// The pass after events.
pub open spec fn after_all(pass: PassModel, events: Seq<PassEvent>) -> PassModel
    decreases events.len(),
{
    if events.len() == 0 {
        pass
    } else {
        after_all(pass.next(events[0]), events.drop_first())
    }
}

/// Everything that a pass says of how far it is, from where it stands on.
pub open spec fn all_told(pass: PassModel, events: Seq<PassEvent>) -> Seq<(int, int)>
    decreases events.len(),
{
    let now = match pass.told() {
        Some(said) => seq![said],
        None => Seq::empty(),
    };
    if events.len() == 0 {
        now
    } else {
        now + all_told(pass.next(events[0]), events.drop_first())
    }
}

/// From so many files behind to all of them, one by one.
pub open spec fn counting_up(from: int, total: int) -> Seq<(int, int)> {
    Seq::new((total - from + 1) as nat, |k: int| (from + k, total))
}

proof fn lemma_counting(pass: PassModel, events: Seq<PassEvent>)
    requires
        pass.valid(),
        expected(pass, events),
        after_all(pass, events).visited.len() == pass.files.len(),
    ensures
        all_told(pass, events) == counting_up(
            pass.visited.len() + if pass.converting is Some {
                1int
            } else {
                0
            },
            pass.files.len() as int,
        ),
    decreases events.len(),
{
    let total = pass.files.len() as int;
    if events.len() == 0 {
        assert(all_told(pass, events) =~= counting_up(total, total));
    } else {
        let event = events[0];
        let next = pass.next(event);
        lemma_counting(next, events.drop_first());
        let done = pass.visited.len() as int;
        if pass.converting is None {
            assert(seq![(done, total)] + counting_up(done + 1, total) =~= counting_up(done, total));
        } else {
            assert(Seq::<(int, int)>::empty() + counting_up(done + 1, total) =~= counting_up(
                done + 1,
                total,
            ));
        }
    }
}

/// A pass says how far it is before each file, whatever becomes of that file, and once after
/// the last: with none behind, with one, and so on up to all.
pub proof fn progress_is_told_file_by_file(
    direction: Direction,
    files: Seq<String>,
    events: Seq<PassEvent>,
)
    requires
        expected(
            PassModel { direction, files, visited: Seq::empty(), converting: None },
            events,
        ),
        after_all(
            PassModel { direction, files, visited: Seq::empty(), converting: None },
            events,
        ).visited.len() == files.len(),
    ensures
        all_told(
            PassModel { direction, files, visited: Seq::empty(), converting: None },
            events,
        ) == counting_up(0, files.len() as int),
{
    lemma_counting(
        PassModel { direction, files, visited: Seq::empty(), converting: None },
        events,
    );
}

/// A recording on disk: the audio that reading it gives, and whether it is encrypted.
pub struct Held {
    pub audio: Seq<u8>,
    pub encrypted: bool,
}

/// What a pass does to one recording. One that is already so, and one whose conversion
/// failed, is as it was; one that was converted has the other form and holds audio that the
/// digest cannot tell from its own.
pub open spec fn passed_over(direction: Direction, file: Visited, before: Held, after: Held) -> bool {
    &&& file.encrypted == before.encrypted
    &&& if direction.wants(before.encrypted) && file.error is None {
        after.encrypted == (direction is Encrypt) && sha256(after.audio) == sha256(before.audio)
    } else {
        after == before
    }
}

/// What a pass does to an archive, recording by recording.
pub open spec fn passed(
    direction: Direction,
    visited: Seq<Visited>,
    before: Seq<Held>,
    after: Seq<Held>,
) -> bool {
    &&& visited.len() == before.len()
    &&& after.len() == before.len()
    &&& forall|i: int|
        0 <= i < before.len() ==> passed_over(
            direction,
            #[trigger] visited[i],
            before[i],
            after[i],
        )
}

/// Whether each recording is encrypted.
pub open spec fn forms(archive: Seq<Held>) -> Seq<bool> {
    archive.map_values(|held: Held| held.encrypted)
}

proof fn lemma_nothing_failed(visited: Seq<Visited>, wanted: spec_fn(bool) -> bool, upto: int)
    requires
        0 <= upto <= visited.len(),
    ensures
        failed_among(visited, wanted, upto).len() == 0 <==> forall|i: int|
            0 <= i < upto ==> !(wanted((#[trigger] visited[i]).encrypted) && visited[i].error
                is Some),
    decreases upto,
{
    if upto > 0 {
        lemma_nothing_failed(visited, wanted, upto - 1);
        let last = visited[upto - 1];
        if failed_among(visited, wanted, upto).len() == 0 {
            assert(!(wanted(last.encrypted) && last.error is Some));
            assert(failed_among(visited, wanted, upto - 1).len() == 0);
        }
    }
}

/// A complete pass leaves every recording in the form that the password wants, with audio
/// that the digest cannot tell from what it held.
pub proof fn complete_pass_leaves_the_wanted_form(
    direction: Direction,
    visited: Seq<Visited>,
    report: ConversionReport,
    before: Seq<Held>,
    after: Seq<Held>,
)
    requires
        passed(direction, visited, before, after),
        reports(report, visited, |encrypted: bool| direction.wants(encrypted)),
        report.failed@.len() == 0,
    ensures
        forall|i: int|
            0 <= i < after.len() ==> (#[trigger] after[i]).encrypted == (direction is Encrypt)
                && sha256(after[i].audio) == sha256(before[i].audio),
{
    let wanted = |encrypted: bool| direction.wants(encrypted);
    assert(failures(report.failed@).len() == 0);
    lemma_nothing_failed(visited, wanted, visited.len() as int);
    assert forall|i: int| 0 <= i < after.len() implies (#[trigger] after[i]).encrypted == (direction
        is Encrypt) && sha256(after[i].audio) == sha256(before[i].audio) by {
        assert(passed_over(direction, visited[i], before[i], after[i]));
        assert(!(wanted(visited[i].encrypted) && visited[i].error is Some));
    }
}

/// After a complete pass the same pass has nothing left to do: no recording is converted,
/// none fails, all are left alone and none changes.
pub proof fn repeated_pass_has_nothing_to_do(
    direction: Direction,
    visited: Seq<Visited>,
    report: ConversionReport,
    before: Seq<Held>,
    after: Seq<Held>,
    again: Seq<Visited>,
    second: ConversionReport,
    then: Seq<Held>,
)
    requires
        passed(direction, visited, before, after),
        reports(report, visited, |encrypted: bool| direction.wants(encrypted)),
        report.failed@.len() == 0,
        passed(direction, again, after, then),
        reports(second, again, |encrypted: bool| direction.wants(encrypted)),
    ensures
        second.converted == 0,
        second.untouched == after.len(),
        second.failed@.len() == 0,
        then == after,
{
    complete_pass_leaves_the_wanted_form(direction, visited, report, before, after);
    assert forall|i: int| 0 <= i < again.len() implies (#[trigger] again[i]).encrypted == (direction
        is Encrypt) by {
        assert(passed_over(direction, again[i], after[i], then[i]));
        assert(after[i].encrypted == (direction is Encrypt));
    }
    crate::archive_encryption::second_pass_has_nothing_to_do(
        again,
        direction,
        again.len() as int,
    );
    assert(failures(second.failed@).len() == second.failed@.len());
    assert forall|i: int| 0 <= i < after.len() implies #[trigger] then[i] == after[i] by {
        assert(passed_over(direction, again[i], after[i], then[i]));
    }
    assert(then =~= after);
}

proof fn lemma_none_counted(flags: Seq<bool>, wanted: bool, upto: int)
    requires
        0 <= upto <= flags.len(),
        forall|i: int| 0 <= i < flags.len() ==> #[trigger] flags[i] != wanted,
    ensures
        count_of(flags, wanted, upto) == 0,
    decreases upto,
{
    if upto > 0 {
        lemma_none_counted(flags, wanted, upto - 1);
        assert(flags[upto - 1] != wanted);
    }
}

/// A complete decrypting pass leaves no encrypted recording to count: only then may the key
/// go.
pub proof fn complete_decryption_leaves_nothing_encrypted(
    visited: Seq<Visited>,
    report: ConversionReport,
    before: Seq<Held>,
    after: Seq<Held>,
)
    requires
        passed(Direction::Decrypt, visited, before, after),
        reports(report, visited, |encrypted: bool| Direction::Decrypt.wants(encrypted)),
        report.failed@.len() == 0,
    ensures
        count_of(forms(after), true, after.len() as int) == 0,
{
    complete_pass_leaves_the_wanted_form(Direction::Decrypt, visited, report, before, after);
    assert forall|i: int| 0 <= i < forms(after).len() implies #[trigger] forms(after)[i] != true by {
        assert(!after[i].encrypted);
    }
    lemma_none_counted(forms(after), true, after.len() as int);
}

proof fn lemma_all_converted(visited: Seq<Visited>, wanted: spec_fn(bool) -> bool, upto: int)
    requires
        0 <= upto <= visited.len(),
        forall|i: int|
            0 <= i < visited.len() ==> wanted((#[trigger] visited[i]).encrypted)
                && visited[i].error is None,
    ensures
        converted_among(visited, wanted, upto) == upto,
        untouched_among(visited, wanted, upto) == 0,
        failed_among(visited, wanted, upto).len() == 0,
    decreases upto,
{
    if upto > 0 {
        lemma_all_converted(visited, wanted, upto - 1);
        assert(wanted(visited[upto - 1].encrypted));
    }
}

/// Setting a password and removing it gives the recordings back: where every recording was
/// plain, the encrypting pass was complete and the decrypting one meets no error, the second
/// pass is complete, converts them all, and leaves each one plain, with audio that the digest
/// cannot tell from what it held at first.
pub proof fn removing_the_password_gives_the_recordings_back(
    sealing: Seq<Visited>,
    sealed_report: ConversionReport,
    opening: Seq<Visited>,
    opened_report: ConversionReport,
    plain: Seq<Held>,
    sealed: Seq<Held>,
    opened: Seq<Held>,
)
    requires
        forall|i: int| 0 <= i < plain.len() ==> !(#[trigger] plain[i]).encrypted,
        passed(Direction::Encrypt, sealing, plain, sealed),
        reports(sealed_report, sealing, |encrypted: bool| Direction::Encrypt.wants(encrypted)),
        sealed_report.failed@.len() == 0,
        passed(Direction::Decrypt, opening, sealed, opened),
        reports(opened_report, opening, |encrypted: bool| Direction::Decrypt.wants(encrypted)),
        forall|i: int| 0 <= i < opening.len() ==> (#[trigger] opening[i]).error is None,
    ensures
        opened_report.failed@.len() == 0,
        opened_report.converted == plain.len(),
        forall|i: int|
            0 <= i < plain.len() ==> !(#[trigger] opened[i]).encrypted && sha256(opened[i].audio)
                == sha256(plain[i].audio),
{
    complete_pass_leaves_the_wanted_form(
        Direction::Encrypt,
        sealing,
        sealed_report,
        plain,
        sealed,
    );
    let wanted = |encrypted: bool| Direction::Decrypt.wants(encrypted);
    assert forall|i: int| 0 <= i < opening.len() implies wanted((#[trigger] opening[i]).encrypted)
        && opening[i].error is None by {
        assert(passed_over(Direction::Decrypt, opening[i], sealed[i], opened[i]));
        assert(sealed[i].encrypted);
    }
    lemma_all_converted(opening, wanted, opening.len() as int);
    assert(failures(opened_report.failed@).len() == opened_report.failed@.len());
    complete_pass_leaves_the_wanted_form(
        Direction::Decrypt,
        opening,
        opened_report,
        sealed,
        opened,
    );
    assert forall|i: int| 0 <= i < plain.len() implies !(#[trigger] opened[i]).encrypted && sha256(
        opened[i].audio,
    ) == sha256(plain[i].audio) by {
        assert(sealed[i].encrypted);
    }
}

/// Every recording that was converted holds what was read of it.
pub open spec fn written_faithfully(before: Seq<Held>, after: Seq<Held>) -> bool {
    forall|i: int|
        0 <= i < before.len() && (#[trigger] after[i]).encrypted != before[i].encrypted
            ==> after[i].audio == before[i].audio
}

/// Where both passes wrote what they read, setting a password and removing it gives every
/// byte of every recording back.
pub proof fn removing_the_password_gives_every_byte_back(
    sealing: Seq<Visited>,
    sealed_report: ConversionReport,
    opening: Seq<Visited>,
    opened_report: ConversionReport,
    plain: Seq<Held>,
    sealed: Seq<Held>,
    opened: Seq<Held>,
)
    requires
        forall|i: int| 0 <= i < plain.len() ==> !(#[trigger] plain[i]).encrypted,
        passed(Direction::Encrypt, sealing, plain, sealed),
        reports(sealed_report, sealing, |encrypted: bool| Direction::Encrypt.wants(encrypted)),
        sealed_report.failed@.len() == 0,
        written_faithfully(plain, sealed),
        passed(Direction::Decrypt, opening, sealed, opened),
        reports(opened_report, opening, |encrypted: bool| Direction::Decrypt.wants(encrypted)),
        forall|i: int| 0 <= i < opening.len() ==> (#[trigger] opening[i]).error is None,
        written_faithfully(sealed, opened),
    ensures
        opened_report.failed@.len() == 0,
        opened_report.converted == plain.len(),
        opened == plain,
{
    complete_pass_leaves_the_wanted_form(
        Direction::Encrypt,
        sealing,
        sealed_report,
        plain,
        sealed,
    );
    removing_the_password_gives_the_recordings_back(
        sealing,
        sealed_report,
        opening,
        opened_report,
        plain,
        sealed,
        opened,
    );
    assert forall|i: int| 0 <= i < plain.len() implies #[trigger] opened[i] == plain[i] by {
        assert(!plain[i].encrypted);
        assert(sealed[i].encrypted);
        assert(!opened[i].encrypted);
    }
    assert(opened =~= plain);
}

/// A path of the list is written this way.
pub open spec fn is_written(list: Seq<String>, path: Seq<char>) -> bool {
    exists|j: int| 0 <= j < list.len() && (#[trigger] list[j])@ == path
}

/// Every path of the one list is in the other, written the same way.
pub open spec fn all_in(files: Seq<String>, others: Seq<String>) -> bool {
    forall|i: int| 0 <= i < files.len() ==> is_written(others, (#[trigger] files[i])@)
}

/// Whether each of the places looks encrypted.
pub open spec fn looks(found: Seq<String>, encrypted: spec_fn(Seq<Seq<char>>) -> bool) -> Seq<bool> {
    found.map_values(|path: String| encrypted(components(path@)))
}

proof fn lemma_places_found(
    found: Seq<String>,
    files: Seq<String>,
    others: Seq<String>,
    found_there: Seq<String>,
    index: int,
)
    requires
        are_recordings_of(found, files),
        are_recordings_of(found_there, others),
        all_in(files, others),
        0 <= index < found.len(),
    ensures
        names_place(found_there, found[index]@),
{
    reveal(are_recordings_of);
    assert(files.contains(found[index]));
    let at = choose|at: int| 0 <= at < files.len() && files[at] == found[index];
    assert(is_written(others, files[at]@));
    let j = choose|j: int| 0 <= j < others.len() && (#[trigger] others[j])@ == files[at]@;
    assert(is_recording_path(others[j]@));
    assert(names_place(found_there, others[j]@));
}

proof fn lemma_all_places_found(
    found: Seq<String>,
    files: Seq<String>,
    others: Seq<String>,
    found_there: Seq<String>,
)
    requires
        are_recordings_of(found, files),
        are_recordings_of(found_there, others),
        all_in(files, others),
    ensures
        holds_all(places_of(found), places_of(found_there)),
{
    reveal(holds_all);
    let here = places_of(found);
    let there = places_of(found_there);
    assert forall|i: int| 0 <= i < found.len() implies there.contains(#[trigger] here[i]) by {
        lemma_places_found(found, files, others, found_there, i);
        let k = choose|k: int|
            0 <= k < found_there.len() && components((#[trigger] found_there[k])@) == components(
                found[i]@,
            );
        assert(there[k] == here[i]);
    }
}

/// The places that paths name.
pub open spec fn places_of(found: Seq<String>) -> Seq<Seq<Seq<char>>> {
    found.map_values(|path: String| components(path@))
}

/// Every place of the one list is in the other.
#[verifier::opaque]
spec fn holds_all(places: Seq<Seq<Seq<char>>>, others: Seq<Seq<Seq<char>>>) -> bool {
    forall|i: int| 0 <= i < places.len() ==> others.contains(#[trigger] places[i])
}

/// Every place stands before the ones behind it.
spec fn in_strict_order(places: Seq<Seq<Seq<char>>>) -> bool {
    forall|i: int, j: int| 0 <= i < j < places.len() ==> names_before(places[i], places[j])
}

proof fn lemma_places_are_ordered(found: Seq<String>)
    requires
        in_path_order(found),
    ensures
        in_strict_order(places_of(found)),
{
    let places = places_of(found);
    assert forall|i: int, j: int| 0 <= i < j < places.len() implies names_before(
        places[i],
        places[j],
    ) by {
        assert(path_before(found[i]@, found[j]@));
    }
}

/// Two strictly ordered lists that hold the same places are the same as far as the first one
/// goes.
proof fn lemma_ordered_lists_agree(a: Seq<Seq<Seq<char>>>, b: Seq<Seq<Seq<char>>>, upto: int)
    requires
        in_strict_order(a),
        in_strict_order(b),
        holds_all(a, b),
        holds_all(b, a),
        0 <= upto <= a.len(),
    ensures
        upto <= b.len(),
        forall|i: int| 0 <= i < upto ==> #[trigger] a[i] == b[i],
    decreases upto,
{
    if upto > 0 {
        lemma_ordered_lists_agree(a, b, upto - 1);
        assert(b.contains(a[upto - 1])) by {
            reveal(holds_all);
        }
        lemma_next_place_agrees(a, b, upto - 1);
    }
}

proof fn lemma_next_place_agrees(a: Seq<Seq<Seq<char>>>, b: Seq<Seq<Seq<char>>>, last: int)
    requires
        in_strict_order(a),
        in_strict_order(b),
        0 <= last < a.len(),
        last <= b.len(),
        b.contains(a[last]),
        holds_all(b, a),
        forall|i: int| 0 <= i < last ==> #[trigger] a[i] == b[i],
    ensures
        last < b.len(),
        a[last] == b[last],
{
    let k = choose|k: int| 0 <= k < b.len() && b[k] == a[last];
    if k < last {
        assert(a[k] == b[k]);
        assert(names_before(a[k], a[last]));
        lemma_names_order_is_strict(a[k], a[last]);
    } else if k > last {
        assert(a.contains(b[last])) by {
            reveal(holds_all);
        }
        let m = choose|m: int| 0 <= m < a.len() && a[m] == b[last];
        assert(names_before(b[last], b[k]));
        if m < last {
            assert(a[m] == b[m]);
            assert(names_before(b[m], b[last]));
            lemma_names_order_is_strict(b[m], b[last]);
        } else if m > last {
            assert(names_before(a[last], a[m]));
            lemma_names_order_is_strict(a[last], b[last]);
        } else {
            lemma_names_order_is_strict(b[last], b[k]);
        }
    }
}

/// Which folders are named first, and how often, changes neither what is found nor how much
/// of it is encrypted: lists that hold the same files give the same recordings, place by
/// place, and the same counts.
pub proof fn counts_do_not_depend_on_the_order_of_folders(
    files: Seq<String>,
    found: Seq<String>,
    others: Seq<String>,
    found_there: Seq<String>,
    encrypted: spec_fn(Seq<Seq<char>>) -> bool,
)
    requires
        are_recordings_of(found, files),
        are_recordings_of(found_there, others),
        all_in(files, others),
        all_in(others, files),
    ensures
        found.len() == found_there.len(),
        forall|i: int|
            0 <= i < found.len() ==> components((#[trigger] found[i])@) == components(
                found_there[i]@,
            ),
        forall|wanted: bool| #[trigger]
            count_of(looks(found, encrypted), wanted, found.len() as int) == count_of(
                looks(found_there, encrypted),
                wanted,
                found.len() as int,
            ),
{
    let here = places_of(found);
    let there = places_of(found_there);
    assert(in_path_order(found) && in_path_order(found_there)) by {
        reveal(are_recordings_of);
    }
    lemma_all_places_found(found, files, others, found_there);
    lemma_all_places_found(found_there, others, files, found);
    lemma_places_are_ordered(found);
    lemma_places_are_ordered(found_there);
    lemma_ordered_lists_agree(here, there, here.len() as int);
    lemma_ordered_lists_agree(there, here, there.len() as int);
    assert forall|i: int| 0 <= i < found.len() implies components((#[trigger] found[i])@)
        == components(found_there[i]@) by {
        assert(here[i] == there[i]);
    }
    assert(looks(found, encrypted) =~= looks(found_there, encrypted));
}

/// Files are taken in their order, each under its own path: one that has the wanted form is
/// behind as soon as it was looked at, without an error; another is converted and then behind,
/// with the error that came of it. Files that are behind stay as they were noted.
pub proof fn files_are_taken_in_order(pass: PassModel, encrypted: bool, reason: String)
    requires
        pass.valid(),
        pass.visited.len() < pass.files.len(),
    ensures
        pass.converting is None && encrypted == (pass.direction is Encrypt) ==> {
            let after = pass.next(PassEvent::Looked(encrypted));
            &&& after.visited.len() == pass.visited.len() + 1
            &&& after.visited.take(pass.visited.len() as int) == pass.visited
            &&& after.visited.last().path == pass.files[pass.visited.len() as int]@
            &&& after.visited.last().encrypted == encrypted
            &&& after.visited.last().error is None
            &&& after.converting is None
        },
        pass.converting is None && encrypted != (pass.direction is Encrypt) ==> {
            let after = pass.next(PassEvent::Looked(encrypted));
            &&& after.visited == pass.visited
            &&& after.converting == Some(encrypted)
        },
        pass.converting == Some(encrypted) ==> {
            let done = pass.next(PassEvent::Converted(Ok(())));
            let failed = pass.next(PassEvent::Converted(Err(reason)));
            &&& done.visited.len() == pass.visited.len() + 1
            &&& done.visited.take(pass.visited.len() as int) == pass.visited
            &&& done.visited.last().path == pass.files[pass.visited.len() as int]@
            &&& done.visited.last().encrypted == encrypted
            &&& done.visited.last().error is None
            &&& failed.visited.len() == pass.visited.len() + 1
            &&& failed.visited.last().path == pass.files[pass.visited.len() as int]@
            &&& failed.visited.last().encrypted == encrypted
            &&& failed.visited.last().error == Some(reason)
            &&& done.converting is None && failed.converting is None
        },
{
    let noted = pass.visited.len() as int;
    assert(pass.next(PassEvent::Looked(encrypted)).visited.take(noted) =~= pass.visited);
    assert(pass.next(PassEvent::Converted(Ok(()))).visited.take(noted) =~= pass.visited);
}

/// What is asked for follows from where the pass stands: a file that was looked at is converted,
/// the next one is looked at while there is one, and only behind the last the pass is finished;
/// how far it is is told as it is.
pub proof fn next_file_is_asked_for(pass: PassModel, step: PassStep)
    requires
        pass.valid(),
        pass.asks(step),
    ensures
        step matches PassStep::Convert(index) ==> pass.converting is Some && index
            == pass.visited.len(),
        step matches PassStep::Look { done, total } ==> pass.converting is None && done
            == pass.visited.len() && total == pass.files.len() && done < total,
        step matches PassStep::Finish { done, total, report } ==> pass.converting is None && done
            == pass.visited.len() && total == pass.files.len() && done == total,
{
}

} // verus!
