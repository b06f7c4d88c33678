//! One run over a meeting's audio, as decisions.
//!
//! The caller decodes, listens, recognises and stores. After each of these it says
//! what came of it and is told what to do next.

use crate::common::{in_calendar, stores, timestamp_of, EngineKind, Recognised, StoredTranscript};
use crate::corrections::{merged, merged_transcript, StoredLine};
use crate::moments::Moment;
use crate::retranscription::{
    all_pieces, create_source_labeled_segments, optional_text, piece_of, pieces_of_stretch,
    speaker_name, spoken_in_order, with_found, with_source, Found, Piece, Speaker, Stretch,
    MIN_PIECE_SAMPLES,
};
use crate::splitting::sample_moment;
use crate::text::{
    chars_of, decimal, decimal_text, joined, text_of, trim, trimmed,
};
use vstd::prelude::*;

verus! {

/// Why a run ended without a result.
#[derive(Debug)]
pub enum RunError {
    Cancelled,
    NoSpeech,
    /// A source could not be decoded.
    Decoding(String),
    /// Voice detection failed on a source.
    Listening(usize, String),
    /// The engine could not be made ready.
    Loading(String),
    /// Recognition failed on a piece.
    Recognition(usize, String),
    /// The result could not be stored.
    Saving(String),
}

/// What the caller says happened.
#[derive(Debug)]
pub enum RunEvent {
    /// The source was decoded; how long it is.
    Decoded(u64),
    /// Voice detection found these stretches in the source.
    Speech(Vec<Stretch>),
    EngineReady,
    /// What was recognised in the piece.
    Text(String),
    /// The piece was passed over.
    Passed,
    Saved,
    Described,
    Failed(String),
}

/// What the caller is to do next. Percentages are those of the whole run.
#[derive(Debug)]
pub enum RunStep {
    /// Decode this source.
    Decode(usize, u32),
    /// Find speech in this source.
    Listen(usize),
    LoadEngine(EngineKind),
    /// Recognise this piece.
    Transcribe(usize, u32),
    /// Say how far the run is; the piece is too short to recognise.
    Pass(usize, u32),
    /// Replace what is stored of the meeting.
    Save,
    /// Bring the meeting's description up to date.
    Describe,
    Finish,
    Fail(RunError),
}

/// Where a run stands.
#[derive(Clone, Copy, Debug, PartialEq, Eq, Structural)]
pub enum RunStage {
    Decoding(usize),
    Listening(usize),
    Loading,
    Transcribing(usize),
    Saving,
    Describing,
    Done,
    Failed,
}

/// What was recognised in a piece.
pub struct Heard {
    pub piece: usize,
    pub text: String,
}

/// A run over a meeting's audio.
pub struct RetranscriptionRun {
    /// The owner of each source's track.
    pub sources: Vec<Option<Speaker>>,
    pub engine: EngineKind,
    pub stage: RunStage,
    pub found: Vec<Found>,
    pub pieces: Vec<Piece>,
    pub heard: Vec<Heard>,
    /// The length of the longest source so far.
    pub duration_ms: u64,
}

/// How far a run is when it decodes source `index` of `count`.
pub open spec fn decoding_percent(index: int, count: int) -> int {
    5 + 20 * index / count
}

/// How far a run is while it listens to source `index` of `count` and voice detection
/// is at `percent`.
pub open spec fn listening_percent(index: int, count: int, percent: int) -> int {
    5 + (20 * index * 100 + 1000 + 10 * percent) / (100 * count)
}

/// How far a run is when it comes to piece `index` of `count`.
pub open spec fn piece_percent(index: int, count: int) -> int {
    25 + 55 * index / count
}

/// How far a run is while it listens.
pub fn vad_percent(index: usize, count: usize, percent: u32) -> (whole: u32)
    requires
        index < count <= 1_000_000,
        percent <= 100,
    ensures
        whole == listening_percent(index as int, count as int, percent as int),
{
    let above: u64 = 2000 * index as u64 + 1000 + 10 * percent as u64;
    let below: u64 = 100 * count as u64;
    assert(above / below <= 40) by (nonlinear_arith)
        requires
            above <= 2000 * (count - 1) + 2000,
            below == 100 * count,
            count > 0,
    ;
    (5 + above / below) as u32
}

/// What a run holds, apart from where it stands.
pub struct RunModel {
    pub sources: Seq<Option<Speaker>>,
    pub engine: EngineKind,
    pub stage: RunStage,
    pub found: Seq<Found>,
    pub pieces: Seq<Piece>,
    pub heard: Seq<Heard>,
    pub duration: u64,
}

/// A piece is long enough to be recognised.
pub open spec fn long_enough(piece: Piece) -> bool {
    piece.to - piece.from >= MIN_PIECE_SAMPLES
}

impl RunModel {
    pub open spec fn at(self, stage: RunStage) -> RunModel {
        RunModel { stage, ..self }
    }

    /// The run turns to source `index`, or to the engine when all were listened to.
    pub open spec fn to_source(self, index: int, cancelled: bool) -> (RunModel, RunStep) {
        if index < self.sources.len() {
            if cancelled {
                (self.at(RunStage::Failed), RunStep::Fail(RunError::Cancelled))
            } else {
                (
                    self.at(RunStage::Decoding(index as usize)),
                    RunStep::Decode(
                        index as usize,
                        decoding_percent(index, self.sources.len() as int) as u32,
                    ),
                )
            }
        } else if self.found.len() == 0 {
            (self.at(RunStage::Failed), RunStep::Fail(RunError::NoSpeech))
        } else {
            (
                RunModel {
                    stage: RunStage::Loading,
                    pieces: all_pieces(self.found, self.found.len() as int),
                    ..self
                },
                RunStep::LoadEngine(self.engine),
            )
        }
    }

    /// The run turns to piece `index`, or to storing when all were recognised.
    pub open spec fn to_piece(self, index: int, cancelled: bool) -> (RunModel, RunStep) {
        if cancelled {
            (self.at(RunStage::Failed), RunStep::Fail(RunError::Cancelled))
        } else if index < self.pieces.len() {
            let percent = piece_percent(index, self.pieces.len() as int) as u32;
            (
                self.at(RunStage::Transcribing(index as usize)),
                if long_enough(self.pieces[index]) {
                    RunStep::Transcribe(index as usize, percent)
                } else {
                    RunStep::Pass(index as usize, percent)
                },
            )
        } else {
            (self.at(RunStage::Saving), RunStep::Save)
        }
    }

    /// The event belongs to where the run stands.
    pub open spec fn expects(self, event: RunEvent) -> bool {
        match (self.stage, event) {
            (RunStage::Decoding(_), RunEvent::Decoded(_)) => true,
            (RunStage::Listening(_), RunEvent::Speech(stretches)) => forall|i: int|
                0 <= i < stretches@.len() ==> (#[trigger] stretches@[i]).wf(),
            (RunStage::Loading, RunEvent::EngineReady) => true,
            (RunStage::Transcribing(index), RunEvent::Text(_)) => long_enough(
                self.pieces[index as int],
            ),
            (RunStage::Transcribing(index), RunEvent::Passed) => !long_enough(
                self.pieces[index as int],
            ),
            (RunStage::Saving, RunEvent::Saved) => true,
            (RunStage::Describing, RunEvent::Described) => true,
            (RunStage::Decoding(_), RunEvent::Failed(_)) => true,
            (RunStage::Listening(_), RunEvent::Failed(_)) => true,
            (RunStage::Loading, RunEvent::Failed(_)) => true,
            (RunStage::Transcribing(_), RunEvent::Failed(_)) => true,
            (RunStage::Saving, RunEvent::Failed(_)) => true,
            _ => false,
        }
    }

    /// The run after an event, and what is to be done next.
    pub open spec fn after(self, event: RunEvent, cancelled: bool) -> (RunModel, RunStep) {
        match (self.stage, event) {
            (RunStage::Decoding(index), RunEvent::Decoded(length)) => (
                RunModel {
                    stage: RunStage::Listening(index),
                    duration: if self.duration < length {
                        length
                    } else {
                        self.duration
                    },
                    ..self
                },
                RunStep::Listen(index),
            ),
            (RunStage::Listening(index), RunEvent::Speech(stretches)) => {
                let heard = RunModel {
                    found: with_source(
                        self.found,
                        stretches@,
                        self.sources[index as int],
                        stretches@.len() as int,
                    ),
                    ..self
                };
                heard.to_source(index + 1, cancelled)
            },
            (RunStage::Loading, RunEvent::EngineReady) => self.to_piece(0, cancelled),
            (RunStage::Transcribing(index), RunEvent::Text(text)) => {
                let kept = RunModel {
                    heard: if trimmed(text@).len() > 0 {
                        self.heard.push(Heard { piece: index, text })
                    } else {
                        self.heard
                    },
                    ..self
                };
                kept.to_piece(index + 1, cancelled)
            },
            (RunStage::Transcribing(index), RunEvent::Passed) => self.to_piece(
                index + 1,
                cancelled,
            ),
            (RunStage::Saving, RunEvent::Saved) => (
                self.at(RunStage::Describing),
                RunStep::Describe,
            ),
            (RunStage::Describing, RunEvent::Described) => (
                self.at(RunStage::Done),
                RunStep::Finish,
            ),
            (stage, RunEvent::Failed(reason)) => (
                self.at(RunStage::Failed),
                RunStep::Fail(
                    match stage {
                        RunStage::Decoding(_) => RunError::Decoding(reason),
                        RunStage::Listening(index) => RunError::Listening(index, reason),
                        RunStage::Loading => RunError::Loading(reason),
                        RunStage::Transcribing(index) => RunError::Recognition(index, reason),
                        _ => RunError::Saving(reason),
                    },
                ),
            ),
            _ => (self, RunStep::Finish),
        }
    }

    /// What every run keeps: speech is in the order it was spoken, and what was heard
    /// is in the order of its pieces, is not blank, and comes from pieces that are
    /// long enough and already behind.
    pub open spec fn valid(self) -> bool {
        &&& spoken_in_order(self.found)
        &&& forall|i: int| 0 <= i < self.found.len() ==> (#[trigger] self.found[i]).stretch.wf()
        &&& forall|i: int|
            0 <= i < self.heard.len() ==> {
                &&& (#[trigger] self.heard[i]).piece < self.reached()
                &&& long_enough(self.pieces[self.heard[i].piece as int])
                &&& trimmed(self.heard[i].text@).len() > 0
            }
        &&& forall|i: int, j: int|
            0 <= i < j < self.heard.len() ==> (#[trigger] self.heard[i]).piece < (
            #[trigger] self.heard[j]).piece
        &&& self.reached() <= self.pieces.len()
        &&& self.stage matches RunStage::Decoding(index) ==> index < self.sources.len()
        &&& self.stage matches RunStage::Listening(index) ==> index < self.sources.len()
        &&& self.stage matches RunStage::Transcribing(index) ==> index < self.pieces.len()
        &&& self.stage is Saving || self.stage is Describing || self.stage is Done
            ==> self.reached() == self.pieces.len()
        &&& self.stage is Decoding || self.stage is Listening ==> self.pieces.len() == 0
        &&& self.stage is Decoding || self.stage is Listening || self.stage is Loading
            ==> self.heard.len() == 0
    }

    /// What was recognised at place `index` of what was heard, with the moments of its
    /// piece.
    pub open spec fn recognised_at(self, index: int) -> Recognised {
        let piece = self.pieces[self.heard[index].piece as int];
        Recognised {
            text: self.heard[index].text,
            start_ms: piece.start_ms,
            end_ms: piece.end_ms,
        }
    }

    /// `lines` are what was heard, as it is stored for a recording that began at `started`.
    pub open spec fn is_stored_as(self, lines: Seq<StoredTranscript>, started: Moment) -> bool {
        &&& lines.len() == self.heard.len()
        &&& forall|i: int|
            0 <= i < lines.len() ==> stores(#[trigger] lines[i], self.recognised_at(i), started)
                && optional_text(lines[i].speaker) == speaker_name(
                self.pieces[self.heard[i].piece as int].speaker,
            )
    }

    /// How many pieces are behind.
    pub open spec fn reached(self) -> int {
        match self.stage {
            RunStage::Decoding(_) => 0,
            RunStage::Listening(_) => 0,
            RunStage::Loading => 0,
            RunStage::Transcribing(index) => index as int,
            _ => self.pieces.len() as int,
        }
    }
}

impl View for RetranscriptionRun {
    type V = RunModel;

    open spec fn view(&self) -> RunModel {
        RunModel {
            sources: self.sources@,
            engine: self.engine,
            stage: self.stage,
            found: self.found@,
            pieces: self.pieces@,
            heard: self.heard@,
            duration: self.duration_ms,
        }
    }
}

/// Puts one more stretch where it was spoken.
fn add_found(found: &mut Vec<Found>, next: Found)
    requires
        spoken_in_order(old(found)@),
        old(found)@.len() < usize::MAX,
    ensures
        final(found)@ == with_found(old(found)@, next),
{
    let ghost before = found@;
    let mut place: usize = found.len();
    let ghost mut tail: Seq<Found> = Seq::empty();
    assert(before.take(place as int) =~= before);
    assert(with_found(before, next) =~= with_found(before.take(place as int), next) + tail);
    while place > 0 && found[place - 1].stretch.start_ms > next.stretch.start_ms
        invariant
            place <= before.len(),
            found@ == before,
            tail == before.skip(place as int),
            with_found(before, next) == with_found(before.take(place as int), next) + tail,
        decreases place,
    {
        let ghost head = before.take(place as int);
        assert(head.drop_last() =~= before.take(place - 1));
        proof {
            let shorter = with_found(before.take(place - 1), next);
            assert(shorter.push(head.last()) + tail =~= shorter + (seq![head.last()] + tail));
            tail = seq![head.last()] + tail;
            assert(tail =~= before.skip(place - 1));
        }
        place -= 1;
    }
    assert(with_found(before.take(place as int), next) == before.take(place as int).push(next));
    let ghost held = next;
    found.insert(place, next);
    assert(found@ =~= before.take(place as int).push(held) + tail);
}

/// Puts the pieces of a stretch at the end of the list.
fn add_pieces(pieces: &mut Vec<Piece>, found: &Found)
    requires
        found.stretch.wf(),
    ensures
        final(pieces)@ == old(pieces)@ + pieces_of_stretch(found.stretch, found.speaker),
{
    let ghost before = pieces@;
    let ghost more = pieces_of_stretch(found.stretch, found.speaker);
    let stretch = &found.stretch;
    let mut index: usize = 0;
    assert(before + more.take(0) =~= before);
    while index < stretch.cuts.len()
        invariant
            index <= stretch.cuts@.len(),
            *stretch == found.stretch,
            stretch.wf(),
            more == pieces_of_stretch(found.stretch, found.speaker),
            pieces@ == before + more.take(index as int),
        decreases stretch.cuts@.len() - index,
    {
        let (from, to) = stretch.cuts[index];
        assert(stretch.cuts@[index as int].0 <= stretch.cuts@[index as int].1 <= stretch.samples);
        let start_ms: u64 = sample_moment(stretch.start_ms, stretch.end_ms, stretch.samples, from);
        let end_ms: u64 = if to == stretch.samples {
            stretch.end_ms
        } else {
            sample_moment(stretch.start_ms, stretch.end_ms, stretch.samples, to)
        };
        let piece = Piece { id: stretch.id, from, to, start_ms, end_ms, speaker: found.speaker };
        assert(piece == piece_of(*stretch, found.speaker, from as int, to as int));
        pieces.push(piece);
        assert(more[index as int] == piece);
        index += 1;
        assert(pieces@ =~= before + more.take(index as int));
    }
    assert(more.take(more.len() as int) =~= more);
}

impl RetranscriptionRun {
    /// A run over sources with these owners. It begins with the first source.
    pub fn new(sources: Vec<Option<Speaker>>, engine: EngineKind) -> (run: RetranscriptionRun)
        requires
            sources@.len() > 0,
        ensures
            run@.valid(),
            run@.sources == sources@,
            run@.engine == engine,
            run@.stage == RunStage::Decoding(0),
            run@.found.len() == 0,
            run@.pieces.len() == 0,
            run@.heard.len() == 0,
            run@.duration == 0,
    {
        RetranscriptionRun {
            sources,
            engine,
            stage: RunStage::Decoding(0),
            found: Vec::new(),
            pieces: Vec::new(),
            heard: Vec::new(),
            duration_ms: 0,
        }
    }

    /// What a new run does first.
    pub fn begin(&mut self, cancelled: bool) -> (step: RunStep)
        requires
            old(self)@.valid(),
            old(self)@.stage == RunStage::Decoding(0),
            old(self)@.sources.len() <= 1_000_000,
        ensures
            final(self)@.valid(),
            (final(self)@, step) == old(self)@.to_source(0, cancelled),
    {
        self.to_source(0, cancelled)
    }

    fn to_source(&mut self, index: usize, cancelled: bool) -> (step: RunStep)
        requires
            old(self)@.valid(),
            old(self)@.stage is Decoding || old(self)@.stage is Listening,
            old(self)@.sources.len() <= 1_000_000,
            index <= old(self)@.sources.len(),
        ensures
            final(self)@.valid(),
            (final(self)@, step) == old(self)@.to_source(index as int, cancelled),
    {
        let count: usize = self.sources.len();
        if index < count {
            if cancelled {
                self.stage = RunStage::Failed;
                return RunStep::Fail(RunError::Cancelled);
            }
            self.stage = RunStage::Decoding(index);
            assert(20 * index / (count as int) <= 20) by (nonlinear_arith)
                requires
                    0 <= index < count,
            ;
            return RunStep::Decode(index, (5 + 20 * index as u64 / count as u64) as u32);
        }
        if self.found.len() == 0 {
            self.stage = RunStage::Failed;
            return RunStep::Fail(RunError::NoSpeech);
        }
        let mut pieces: Vec<Piece> = Vec::new();
        let mut next: usize = 0;
        while next < self.found.len()
            invariant
                next <= self.found@.len(),
                *self == *old(self),
                self@.valid(),
                pieces@ == all_pieces(self.found@, next as int),
            decreases self.found@.len() - next,
        {
            assert(self@.found[next as int].stretch.wf());
            add_pieces(&mut pieces, &self.found[next]);
            next += 1;
        }
        self.pieces = pieces;
        self.stage = RunStage::Loading;
        RunStep::LoadEngine(self.engine)
    }

    fn to_piece(&mut self, index: usize, cancelled: bool) -> (step: RunStep)
        requires
            index <= old(self)@.pieces.len(),
            old(self)@.pieces.len() <= 0x1_0000_0000_0000,
        ensures
            (final(self)@, step) == old(self)@.to_piece(index as int, cancelled),
    {
        if cancelled {
            self.stage = RunStage::Failed;
            return RunStep::Fail(RunError::Cancelled);
        }
        let count: usize = self.pieces.len();
        if index < count {
            self.stage = RunStage::Transcribing(index);
            assert(55 * index / (count as int) <= 55) by (nonlinear_arith)
                requires
                    0 <= index < count,
            ;
            let percent: u32 = (25 + 55 * index as u64 / count as u64) as u32;
            let piece = self.pieces[index];
            if piece.to >= piece.from && piece.to - piece.from >= MIN_PIECE_SAMPLES {
                RunStep::Transcribe(index, percent)
            } else {
                RunStep::Pass(index, percent)
            }
        } else {
            self.stage = RunStage::Saving;
            RunStep::Save
        }
    }

    /// Takes what happened and says what to do next. A run that was cancelled ends
    /// before the next source, before the next piece and before anything is stored.
    pub fn step(&mut self, event: RunEvent, cancelled: bool) -> (step: RunStep)
        requires
            old(self)@.valid(),
            old(self)@.expects(event),
            old(self)@.sources.len() <= 1_000_000,
            old(self)@.pieces.len() <= 0x1_0000_0000_0000,
            event matches RunEvent::Speech(stretches) ==> old(self)@.found.len() + stretches@.len()
                < usize::MAX,
        ensures
            final(self)@.valid(),
            (final(self)@, step) == old(self)@.after(event, cancelled),
            step is Save ==> !cancelled,
    {
        let _pieces: usize = self.pieces.len();
        let _sources: usize = self.sources.len();
        match (self.stage, event) {
            (RunStage::Decoding(index), RunEvent::Decoded(length)) => {
                if self.duration_ms < length {
                    self.duration_ms = length;
                }
                self.stage = RunStage::Listening(index);
                RunStep::Listen(index)
            },
            (RunStage::Listening(index), RunEvent::Speech(stretches)) => {
                self.hear(index, stretches);
                self.to_source(index + 1, cancelled)
            },
            (RunStage::Loading, RunEvent::EngineReady) => self.to_piece(0, cancelled),
            (RunStage::Transcribing(index), RunEvent::Text(text)) => {
                let inner = trim(&chars_of(text.as_str()));
                if inner.len() > 0 {
                    self.heard.push(Heard { piece: index, text });
                }
                self.to_piece(index + 1, cancelled)
            },
            (RunStage::Transcribing(index), RunEvent::Passed) => self.to_piece(
                index + 1,
                cancelled,
            ),
            (RunStage::Saving, RunEvent::Saved) => {
                self.stage = RunStage::Describing;
                RunStep::Describe
            },
            (RunStage::Describing, RunEvent::Described) => {
                self.stage = RunStage::Done;
                RunStep::Finish
            },
            (stage, RunEvent::Failed(reason)) => {
                self.stage = RunStage::Failed;
                RunStep::Fail(
                    match stage {
                        RunStage::Decoding(_) => RunError::Decoding(reason),
                        RunStage::Listening(index) => RunError::Listening(index, reason),
                        RunStage::Loading => RunError::Loading(reason),
                        RunStage::Transcribing(index) => RunError::Recognition(index, reason),
                        _ => RunError::Saving(reason),
                    },
                )
            },
            _ => RunStep::Finish,
        }
    }

    fn hear(&mut self, index: usize, stretches: Vec<Stretch>)
        requires
            old(self)@.valid(),
            old(self)@.stage == RunStage::Listening(index),
            forall|i: int| 0 <= i < stretches@.len() ==> (#[trigger] stretches@[i]).wf(),
            old(self)@.found.len() + stretches@.len() < usize::MAX,
        ensures
            final(self)@.valid(),
            final(self)@ == (RunModel {
                found: with_source(
                    old(self)@.found,
                    stretches@,
                    old(self)@.sources[index as int],
                    stretches@.len() as int,
                ),
                ..old(self)@
            }),
    {
        let ghost before = self@;
        let ghost given = stretches@;
        let speaker = self.sources[index];
        let mut next: usize = 0;
        let mut rest = stretches;
        while rest.len() > 0
            invariant
                next + rest@.len() == given.len(),
                rest@ == given.skip(next as int),
                before.found.len() + given.len() < usize::MAX,
                before.valid(),
                before.stage == RunStage::Listening(index),
                speaker == before.sources[index as int],
                forall|i: int| 0 <= i < given.len() ==> (#[trigger] given[i]).wf(),
                self@ == (RunModel { found: self@.found, ..before }),
                self@.found == with_source(before.found, given, speaker, next as int),
                self@.found.len() == before.found.len() + next,
                self@.valid(),
            decreases rest@.len(),
        {
            let ghost had = rest@;
            let stretch = rest.remove(0);
            assert(had[0] == given[next as int]);
            assert(rest@ =~= given.skip(next + 1));
            let ghost found = self@.found;
            let item = Found { stretch, speaker };
            proof {
                crate::retranscription::lemma_with_found_keeps_order(found, item);
            }
            add_found(&mut self.found, item);
            proof {
                let after = self@.found;
                assert forall|i: int| 0 <= i < after.len() implies (
                #[trigger] after[i]).stretch.wf() by {
                    if after[i] != item {
                        let k = choose|k: int| 0 <= k < found.len() && found[k] == after[i];
                        assert(found[k].stretch.wf());
                    }
                }
            }
            next += 1;
        }
    }

    /// What is to be stored once every piece was recognised: the texts with the
    /// moments of their pieces, and beside them whose track each came from.
    pub fn recognised(&self) -> (result: (Vec<Recognised>, Vec<Option<Speaker>>))
        requires
            self@.valid(),
        ensures
            result.0@.len() == self@.heard.len(),
            result.1@.len() == self@.heard.len(),
            forall|i: int|
                0 <= i < self@.heard.len() ==> {
                    let piece = self@.pieces[self@.heard[i].piece as int];
                    &&& (#[trigger] result.0@[i]).text@ == self@.heard[i].text@
                    &&& result.0@[i].start_ms == piece.start_ms
                    &&& result.0@[i].end_ms == piece.end_ms
                },
            forall|i: int|
                0 <= i < self@.heard.len() ==> #[trigger] result.1@[i]
                    == self@.pieces[self@.heard[i].piece as int].speaker,
    {
        let mut results: Vec<Recognised> = Vec::new();
        let mut hints: Vec<Option<Speaker>> = Vec::new();
        while results.len() < self.heard.len()
            invariant
                self@.valid(),
                results@.len() <= self@.heard.len(),
                hints@.len() == results@.len(),
                forall|i: int|
                    0 <= i < results@.len() ==> {
                        let piece = self@.pieces[self@.heard[i].piece as int];
                        &&& (#[trigger] results@[i]).text@ == self@.heard[i].text@
                        &&& results@[i].start_ms == piece.start_ms
                        &&& results@[i].end_ms == piece.end_ms
                    },
                forall|i: int|
                    0 <= i < hints@.len() ==> #[trigger] hints@[i]
                        == self@.pieces[self@.heard[i].piece as int].speaker,
            decreases self@.heard.len() - results@.len(),
        {
            let index: usize = results.len();
            assert(self@.heard[index as int].piece < self@.reached());
            let piece = self.pieces[self.heard[index].piece];
            results.push(
                Recognised {
                    text: self.heard[index].text.clone(),
                    start_ms: piece.start_ms,
                    end_ms: piece.end_ms,
                },
            );
            hints.push(piece.speaker);
        }
        (results, hints)
    }

    /// The lines that replace what is stored of the meeting: those of this run, around what
    /// the owner corrected. Fails when the moment that one of them began at cannot be
    /// written.
    pub fn to_store(&self, started: Moment, stored: Vec<StoredLine>) -> (lines: Result<
        Vec<StoredTranscript>,
        String,
    >)
        requires
            self@.valid(),
            started.wf(),
        ensures
            match lines {
                Ok(lines) => exists|fresh: Seq<StoredTranscript>| #[trigger]
                    self@.is_stored_as(fresh, started) && lines@ == merged(stored@, fresh),
                Err(reason) => {
                    &&& reason@ == "The recording's start is out of range"@
                    &&& exists|i: int|
                        0 <= i < self@.heard.len() && timestamp_of(
                            started,
                            (#[trigger] self@.recognised_at(i)).start_ms as int,
                        ) is None
                },
            },
            (forall|i: int|
                0 <= i < self@.heard.len() ==> in_calendar(
                    started,
                    (#[trigger] self@.recognised_at(i)).start_ms as int,
                )) ==> lines is Ok,
    {
        let (texts, hints) = self.recognised();
        assert forall|i: int| 0 <= i < texts@.len() implies (#[trigger] texts@[i]).start_ms
            == self@.recognised_at(i).start_ms by {}
        match create_source_labeled_segments(&texts, &hints, started) {
            Ok(fresh) => {
                assert forall|i: int| 0 <= i < fresh@.len() implies stores(
                    #[trigger] fresh@[i],
                    self@.recognised_at(i),
                    started,
                ) && optional_text(fresh@[i].speaker) == speaker_name(
                    self@.pieces[self@.heard[i].piece as int].speaker,
                ) by {
                    assert(stores(fresh@[i], texts@[i], started));
                    assert(hints@[i] == self@.pieces[self@.heard[i].piece as int].speaker);
                }
                assert(self@.is_stored_as(fresh@, started));
                Ok(merged_transcript(stored, fresh))
            },
            Err(reason) => {
                proof {
                    let i = choose|i: int|
                        0 <= i < texts@.len() && timestamp_of(
                            started,
                            (#[trigger] texts@[i]).start_ms as int,
                        ) is None;
                    assert(self@.recognised_at(i).start_ms == texts@[i].start_ms);
                }
                Err(reason)
            },
        }
    }
}

/// The name that an engine's failures are reported under.
pub open spec fn engine_name(engine: EngineKind) -> Seq<char> {
    match engine {
        EngineKind::Whisper => "Whisper"@,
        EngineKind::Parakeet => "Parakeet"@,
        EngineKind::GigaAm => "GigaAM"@,
        EngineKind::External => "External STT"@,
    }
}

/// What a failed run says.
pub open spec fn failure_text(error: RunError, engine: EngineKind, label: Seq<char>) -> Seq<char> {
    match error {
        RunError::Cancelled => "Retranscription cancelled"@,
        RunError::NoSpeech => "No speech detected in audio file"@,
        RunError::Decoding(reason) => reason@,
        RunError::Listening(_, reason) => "VAD processing failed for "@ + label + ": "@ + reason@,
        RunError::Loading(reason) => reason@,
        RunError::Recognition(index, reason) => engine_name(engine)
            + " transcription failed on segment "@ + decimal(index as nat) + ": "@ + reason@,
        RunError::Saving(reason) => reason@,
    }
}

/// What a failed run says. `label` names the source that was listened to.
pub fn failure_message(error: &RunError, engine: EngineKind, label: &str) -> (message: String)
    ensures
        message@ == failure_text(*error, engine, label@),
{
    match error {
        RunError::Cancelled => "Retranscription cancelled".to_owned(),
        RunError::NoSpeech => "No speech detected in audio file".to_owned(),
        RunError::Decoding(reason) => reason.clone(),
        RunError::Listening(_, reason) => {
            let mut message = joined("VAD processing failed for ", label);
            message.append(": ");
            message.append(reason.as_str());
            message
        },
        RunError::Loading(reason) => reason.clone(),
        RunError::Recognition(index, reason) => {
            let name = match engine {
                EngineKind::Whisper => "Whisper",
                EngineKind::Parakeet => "Parakeet",
                EngineKind::GigaAm => "GigaAM",
                EngineKind::External => "External STT",
            };
            let mut message = joined(name, " transcription failed on segment ");
            let number = text_of(&decimal_text(*index as u64));
            message.append(number.as_str());
            message.append(": ");
            message.append(reason.as_str());
            message
        },
        RunError::Saving(reason) => reason.clone(),
    }
}

/// What is stored of the meeting is replaced only when every piece is behind and the
/// run was not cancelled.
pub proof fn nothing_is_replaced_too_early(run: RunModel, event: RunEvent, cancelled: bool)
    requires
        run.valid(),
        run.expects(event),
        run.after(event, cancelled).1 is Save,
    ensures
        !cancelled,
        run.stage is Transcribing || run.stage is Loading,
        run.stage matches RunStage::Transcribing(index) ==> index + 1 == run.pieces.len(),
        run.stage is Loading ==> run.pieces.len() == 0,
{
}

/// A cancelled run never goes on to another source, another piece or storing; it may
/// only finish what was already stored.
pub proof fn cancelled_run_stops(run: RunModel, event: RunEvent)
    requires
        run.valid(),
        run.expects(event),
    ensures
        !(run.after(event, true).1 is Decode),
        !(run.after(event, true).1 is Transcribe),
        !(run.after(event, true).1 is Pass),
        !(run.after(event, true).1 is Save),
{
}

/// Progress does not go back: listening follows decoding, the next source follows
/// both, and recognising follows all sources.
pub proof fn progress_never_goes_back(index: int, count: int, percent: int)
    requires
        0 <= index < count,
        0 <= percent <= 100,
    ensures
        5 <= decoding_percent(index, count) <= listening_percent(index, count, percent),
        listening_percent(index, count, percent) <= decoding_percent(index + 1, count) <= 25,
        25 <= piece_percent(index, count) <= piece_percent(index + 1, count) <= 80,
{
    assert(0 <= 20 * index / count <= (20 * index * 100 + 1000 + 10 * percent) / (100 * count)
        && (20 * index * 100 + 1000 + 10 * percent) / (100 * count) <= 20 * (index + 1) / count
        && 20 * (index + 1) / count <= 20) by {
        lemma_shares(20 * index, 20 * index * 100 + 1000 + 10 * percent, 20 * (index + 1), count);
    }
    assert(0 <= 55 * index / count <= 55 * (index + 1) / count <= 55) by (nonlinear_arith)
        requires
            0 <= index < count,
    ;
}

proof fn lemma_shares(low: int, hundredfold: int, high: int, count: int)
    requires
        count > 0,
        0 <= low,
        low * 100 <= hundredfold <= high * 100,
        high <= 20 * count,
    ensures
        0 <= low / count <= hundredfold / (100 * count) <= high / count <= 20,
{
    assert(low / count == (low * 100) / (100 * count)) by {
        vstd::arithmetic::div_mod::lemma_div_denominator(low * 100, 100, count);
        assert((low * 100) / 100 == low);
    }
    assert(high / count == (high * 100) / (100 * count)) by {
        vstd::arithmetic::div_mod::lemma_div_denominator(high * 100, 100, count);
        assert((high * 100) / 100 == high);
    }
    vstd::arithmetic::div_mod::lemma_div_is_ordered(low * 100, hundredfold, 100 * count);
    vstd::arithmetic::div_mod::lemma_div_is_ordered(hundredfold, high * 100, 100 * count);
    assert(0 <= low / count) by (nonlinear_arith)
        requires
            0 <= low,
            count > 0,
    ;
    assert(high / count <= 20) by (nonlinear_arith)
        requires
            high <= 20 * count,
            count > 0,
    ;
}

/// Sources are taken in turn, and each is listened to as soon as it was decoded. Behind the
/// last one the engine that was asked for is made ready, unless nobody spoke.
pub proof fn sources_are_taken_in_turn(run: RunModel, index: usize, length: u64, stretches: Vec<Stretch>)
    requires
        run.valid(),
        index < run.sources.len() <= 1_000_000,
    ensures
        run.stage == RunStage::Decoding(index) ==> ({
            let (after, step) = run.after(RunEvent::Decoded(length), false);
            &&& step == RunStep::Listen(index)
            &&& after.stage == RunStage::Listening(index)
            &&& after.duration >= length && after.duration >= run.duration
            &&& after.duration == length || after.duration == run.duration
        }),
        run.stage == RunStage::Listening(index) ==> ({
            let (after, step) = run.after(RunEvent::Speech(stretches), false);
            let last = index + 1 == run.sources.len();
            &&& after.found.len() == run.found.len() + stretches@.len()
            &&& !last ==> after.stage == RunStage::Decoding((index + 1) as usize)
                && step is Decode && step->Decode_0 == index + 1
            &&& last && after.found.len() == 0 ==> step == RunStep::Fail(RunError::NoSpeech)
                && after.stage is Failed
            &&& last && after.found.len() > 0 ==> step == RunStep::LoadEngine(run.engine)
                && after.stage is Loading
        }),
{
    if run.stage == RunStage::Listening(index) {
        crate::retranscription::sources_are_merged_in_order(
            run.found,
            stretches@,
            run.sources[index as int],
            stretches@.len() as int,
        );
    }
}

/// Pieces are taken one after the other. A piece of at least a tenth of a second is recognised
/// and a shorter one is passed over; behind the last one the result is stored.
pub proof fn pieces_are_taken_in_turn(run: RunModel, index: usize, event: RunEvent)
    requires
        run.valid(),
        run.expects(event),
        run.pieces.len() <= usize::MAX,
        run.stage == RunStage::Transcribing(index),
        event is Text || event is Passed,
    ensures
        ({
            let (after, step) = run.after(event, false);
            &&& after.pieces == run.pieces
            &&& index + 1 == run.pieces.len() ==> step is Save && after.stage is Saving
            &&& index + 1 < run.pieces.len() ==> ({
                let next = run.pieces[index + 1];
                &&& after.stage == RunStage::Transcribing((index + 1) as usize)
                &&& next.from + 1600 <= next.to ==> step is Transcribe && step->Transcribe_0 == index
                    + 1
                &&& next.from + 1600 > next.to ==> step is Pass && step->Pass_0 == index + 1
            })
        }),
{
}

/// What was recognised is kept whole and with its piece, behind what was heard before it; a
/// text of white space alone is not kept, and passing a piece over keeps nothing.
pub proof fn texts_are_kept_with_their_pieces(run: RunModel, index: usize, text: String, cancelled: bool)
    requires
        run.stage == RunStage::Transcribing(index),
    ensures
        run.after(RunEvent::Passed, cancelled).0.heard == run.heard,
        ({
            let after = run.after(RunEvent::Text(text), cancelled).0.heard;
            let spoken = exists|i: int| 0 <= i < text@.len() && !crate::text::is_white(
                #[trigger] text@[i],
            );
            &&& !spoken ==> after == run.heard
            &&& spoken ==> {
                &&& after.len() == run.heard.len() + 1
                &&& after.take(run.heard.len() as int) == run.heard
                &&& after.last().piece == index
                &&& after.last().text == text
            }
        }),
{
    crate::text::white_space_alone_is_taken_off(text@);
    let after = run.after(RunEvent::Text(text), cancelled).0.heard;
    if trimmed(text@).len() > 0 {
        assert(after.take(run.heard.len() as int) =~= run.heard);
    }
}

/// A run that failed says why in the words it was given, and where it stood; it goes no
/// further and keeps what it had.
pub proof fn failure_says_where_it_came_from(run: RunModel, reason: String, cancelled: bool)
    requires
        run.expects(RunEvent::Failed(reason)),
    ensures
        ({
            let (after, step) = run.after(RunEvent::Failed(reason), cancelled);
            &&& after.stage is Failed
            &&& after.heard == run.heard && after.pieces == run.pieces && after.found == run.found
            &&& run.stage is Decoding ==> step == RunStep::Fail(RunError::Decoding(reason))
            &&& run.stage is Listening ==> step == RunStep::Fail(
                RunError::Listening(run.stage->Listening_0, reason),
            )
            &&& run.stage is Loading ==> step == RunStep::Fail(RunError::Loading(reason))
            &&& run.stage is Transcribing ==> step == RunStep::Fail(
                RunError::Recognition(run.stage->Transcribing_0, reason),
            )
            &&& run.stage is Saving ==> step == RunStep::Fail(RunError::Saving(reason))
        }),
{
}

/// Decoding begins at five percent and takes twenty for all sources, in equal shares;
/// recognising begins at twenty-five and takes fifty-five for all pieces, in equal shares.
pub proof fn progress_is_shared_out_evenly(index: int, count: int)
    requires
        0 <= index < count,
    ensures
        0 <= 20 * index - (decoding_percent(index, count) - 5) * count < count,
        0 <= 55 * index - (piece_percent(index, count) - 25) * count < count,
        0 <= 20 * (2 * index + 1) - 2 * (listening_percent(index, count, 0) - 5) * count < 2 * count,
        0 <= 20 * (index + 1) - (listening_percent(index, count, 100) - 5) * count < count,
{
    vstd::arithmetic::div_mod::lemma_fundamental_div_mod(20 * index, count);
    vstd::arithmetic::div_mod::lemma_fundamental_div_mod(55 * index, count);
    let half = 2000 * index + 1000;
    let whole = 2000 * index + 2000;
    assert(20 * index * 100 + 1000 + 10 * 0 == half);
    assert(20 * index * 100 + 1000 + 10 * 100 == whole);
    vstd::arithmetic::div_mod::lemma_fundamental_div_mod(half, 100 * count);
    vstd::arithmetic::div_mod::lemma_fundamental_div_mod(whole, 100 * count);
    let a = 20 * index / count;
    let b = 55 * index / count;
    let c = half / (100 * count);
    let d = whole / (100 * count);
    assert(count * a == a * count) by (nonlinear_arith);
    assert(count * b == b * count) by (nonlinear_arith);
    assert((100 * count) * c == 100 * (c * count)) by (nonlinear_arith);
    assert((100 * count) * d == 100 * (d * count)) by (nonlinear_arith);
    assert(2 * c * count == 2 * (c * count)) by (nonlinear_arith);
}

/// A line that is stored is what was heard, as it was heard: its text, the moments of the piece
/// it was heard in and the owner of the track that the piece came from. Lines are in the order
/// of what was heard, one for each.
pub proof fn stored_line_is_what_was_heard(
    run: RunModel,
    lines: Seq<StoredTranscript>,
    started: Moment,
    index: int,
)
    requires
        run.is_stored_as(lines, started),
        0 <= index < lines.len(),
    ensures
        lines.len() == run.heard.len(),
        ({
            let heard = run.heard[index];
            let piece = run.pieces[heard.piece as int];
            let line = lines[index];
            &&& line.text@ == trimmed(heard.text@)
            &&& line.audio_start_time == Some(piece.start_ms)
            &&& line.audio_end_time == Some(piece.end_ms)
            &&& line.duration is Some && piece.start_ms + line.duration->0 == piece.end_ms
            &&& piece.speaker == Some(Speaker::You) ==> (line.speaker matches Some(name) && name@
                == "You"@)
            &&& piece.speaker == Some(Speaker::Guest) ==> (line.speaker matches Some(name) && name@
                == "Guest"@)
            &&& piece.speaker is None ==> line.speaker is None
        }),
{
    assert(stores(lines[index], run.recognised_at(index), started));
    crate::common::stored_stretch_is_as_it_was_spoken(
        lines[index],
        run.recognised_at(index),
        started,
    );
}

/// What a failed run says ends with the reason that was given; where it was one piece of many,
/// its number is told, and where it was one source, its name.
pub proof fn failed_run_gives_the_reason(
    engine: EngineKind,
    label: Seq<char>,
    index: usize,
    reason: String,
)
    ensures
        failure_text(RunError::Decoding(reason), engine, label) == reason@,
        failure_text(RunError::Loading(reason), engine, label) == reason@,
        failure_text(RunError::Saving(reason), engine, label) == reason@,
        crate::text::ends_with(
            failure_text(RunError::Listening(index, reason), engine, label),
            reason@,
        ),
        crate::text::holds_text(
            failure_text(RunError::Listening(index, reason), engine, label),
            label,
        ),
        crate::text::ends_with(
            failure_text(RunError::Recognition(index, reason), engine, label),
            reason@,
        ),
        crate::text::holds_text(
            failure_text(RunError::Recognition(index, reason), engine, label),
            decimal(index as nat),
        ),
{
    crate::recording_commands::lemma_parts(
        "VAD processing failed for "@,
        label,
        ": "@,
        reason@,
    );
    crate::recording_commands::lemma_parts(
        engine_name(engine) + " transcription failed on segment "@,
        decimal(index as nat),
        ": "@,
        reason@,
    );
}

} // verus!
