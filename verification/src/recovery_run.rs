//! Recovering an interrupted recording, step by step.
//!
//! The caller renames, decodes, runs the encoder and touches the disk. After each of these
//! it says what came of it; where the recovery stands says what is to be done next.

use crate::checkpoint_recovery::{
    failures_of, holds_path, joined_pieces, joined_status, mixed_not_joined, named_status,
    recovered_tracks, unjoined_status, unrecovered, unrecovered_status, AudioRecoveryStatus,
    StatusModel,
};
use crate::paths::{inside, join, same_path};
use crate::text::{joined, texts};
use vstd::prelude::*;

verus! {

/// Where a recovery stands, which is what the caller is to do next.
#[derive(Clone, Copy, Debug, PartialEq, Eq, Structural)]
pub enum RecoveryStage {
    /// Drop the half-written working tracks, then name the tracks that only lack that.
    Name,
    /// Decode the mixed recording to see how long it is.
    Measure,
    /// Look for the folder that an older recording keeps its pieces in.
    Look,
    /// Join the pieces of the mixed recording.
    JoinMixed { by_track: bool },
    /// Join as many pieces of the microphone, if it has a folder of its own.
    JoinMicrophone { expected: u32 },
    JoinSystem { expected: u32 },
    Done,
}

/// What the caller says happened.
#[derive(Debug)]
pub enum RecoveryEvent {
    /// The tracks that were named.
    Named(Vec<String>),
    /// How long the mixed recording is, if it could be decoded.
    Measured(Option<u64>),
    /// Whether pieces are kept track by track, and whether their folder is there.
    Looked { by_track: bool, present: bool },
    /// How many pieces were joined.
    Joined(Result<u32, String>),
    /// The track has no pieces.
    Absent,
}

/// A recovery as plain data.
pub struct RecoveryModel {
    pub folder: Seq<char>,
    pub stage: RecoveryStage,
    pub tracks: Seq<Seq<char>>,
    pub failures: Seq<(Seq<char>, Seq<char>)>,
    pub outcome: Option<StatusModel>,
}

impl RecoveryModel {
    pub open spec fn at(self, stage: RecoveryStage) -> RecoveryModel {
        RecoveryModel { stage, ..self }
    }

    pub open spec fn done(self, outcome: StatusModel) -> RecoveryModel {
        RecoveryModel { stage: RecoveryStage::Done, outcome: Some(outcome), ..self }
    }

    /// A separate track that could not be joined does not cost the mixed recording.
    pub open spec fn with_failure(self, track: Seq<char>, joined: Result<u32, String>) ->
        RecoveryModel {
        match joined {
            Ok(_) => self,
            Err(reason) => RecoveryModel { failures: self.failures.push((track, reason@)), ..self },
        }
    }

    /// What becomes of the recovery. An event that nobody asked for changes nothing.
    pub open spec fn next(self, event: RecoveryEvent) -> RecoveryModel {
        match (self.stage, event) {
            (RecoveryStage::Name, RecoveryEvent::Named(tracks)) => {
                let named = texts(tracks@);
                if named.len() == 0 {
                    self.at(RecoveryStage::Look)
                } else if holds_path(named, inside(self.folder, "audio.mp4"@)) {
                    (RecoveryModel { tracks: named, ..self }).at(RecoveryStage::Measure)
                } else {
                    (RecoveryModel { tracks: named, ..self }).done(
                        named_status(self.folder, named, None),
                    )
                }
            },
            (RecoveryStage::Measure, RecoveryEvent::Measured(length)) => self.done(
                named_status(self.folder, self.tracks, length),
            ),
            (RecoveryStage::Look, RecoveryEvent::Looked { by_track, present }) => if present {
                self.at(RecoveryStage::JoinMixed { by_track })
            } else {
                self.done(unrecovered_status(false, "No audio checkpoints found"@))
            },
            (RecoveryStage::JoinMixed { .. }, RecoveryEvent::Joined(Ok(count))) => self.at(
                RecoveryStage::JoinMicrophone { expected: count },
            ),
            (RecoveryStage::JoinMixed { .. }, RecoveryEvent::Joined(Err(reason))) => self.done(
                unjoined_status(reason@),
            ),
            (RecoveryStage::JoinMicrophone { expected }, RecoveryEvent::Joined(joined)) =>
            self.with_failure("mic"@, joined).at(RecoveryStage::JoinSystem { expected }),
            (RecoveryStage::JoinMicrophone { expected }, RecoveryEvent::Absent) => self.at(
                RecoveryStage::JoinSystem { expected },
            ),
            (RecoveryStage::JoinSystem { expected }, RecoveryEvent::Joined(joined)) => {
                let all = self.with_failure("system"@, joined);
                all.done(joined_status(self.folder, expected as int, all.failures))
            },
            (RecoveryStage::JoinSystem { expected }, RecoveryEvent::Absent) => self.done(
                joined_status(self.folder, expected as int, self.failures),
            ),
            _ => self,
        }
    }
}

/// A recovery under way.
pub struct RecoveryRun {
    pub folder: String,
    pub stage: RecoveryStage,
    pub tracks: Vec<String>,
    pub failures: Vec<(String, String)>,
    pub outcome: Option<AudioRecoveryStatus>,
}

impl View for RecoveryRun {
    type V = RecoveryModel;

    open spec fn view(&self) -> RecoveryModel {
        RecoveryModel {
            folder: self.folder@,
            stage: self.stage,
            tracks: texts(self.tracks@),
            failures: failures_of(self.failures@),
            outcome: match self.outcome {
                Some(status) => Some(status@),
                None => None,
            },
        }
    }
}

impl RecoveryRun {
    /// Fewer tracks than can be counted.
    pub open spec fn wf(&self) -> bool {
        self.tracks@.len() <= u32::MAX
    }

    pub fn new(folder: &str) -> (run: RecoveryRun)
        ensures
            run.wf(),
            run@ == (RecoveryModel {
                folder: folder@,
                stage: RecoveryStage::Name,
                tracks: Seq::empty(),
                failures: Seq::empty(),
                outcome: None,
            }),
    {
        let run = RecoveryRun {
            folder: folder.to_owned(),
            stage: RecoveryStage::Name,
            tracks: Vec::new(),
            failures: Vec::new(),
            outcome: None,
        };
        assert(texts(run.tracks@) =~= Seq::empty());
        assert(failures_of(run.failures@) =~= Seq::empty());
        run
    }

    fn conclude(&mut self, status: AudioRecoveryStatus)
        requires
            old(self).wf(),
        ensures
            final(self).wf(),
            final(self)@ == old(self)@.done(status@),
    {
        self.stage = RecoveryStage::Done;
        self.outcome = Some(status);
    }

    fn note_failure(&mut self, track: &str, joined: Result<u32, String>)
        requires
            old(self).wf(),
        ensures
            final(self).wf(),
            final(self)@ == old(self)@.with_failure(track@, joined),
    {
        match joined {
            Ok(_) => {},
            Err(reason) => {
                let ghost had = self.failures@;
                let failure = (track.to_owned(), reason);
                let ghost put = failure;
                self.failures.push(failure);
                assert(failures_of(self.failures@) =~= failures_of(had).push((put.0@, put.1@)));
            },
        }
    }

    fn named(&mut self, tracks: Vec<String>)
        requires
            old(self).wf(),
            tracks@.len() <= u32::MAX,
            old(self).stage is Name,
        ensures
            final(self).wf(),
            final(self)@ == old(self)@.next(RecoveryEvent::Named(tracks)),
    {
        assert(texts(tracks@).len() == tracks@.len());
        if tracks.len() == 0 {
            self.stage = RecoveryStage::Look;
            return;
        }
        let mixed = join(self.folder.as_str(), "audio.mp4");
        let mut whole = false;
        let mut index: usize = 0;
        while index < tracks.len()
            invariant
                index <= tracks@.len(),
                mixed@ == inside(self.folder@, "audio.mp4"@),
                whole == holds_path(texts(tracks@).take(index as int), mixed@),
            decreases tracks@.len() - index,
        {
            let ghost held = texts(tracks@).take(index as int);
            let ghost more = texts(tracks@).take(index + 1);
            assert(texts(tracks@)[index as int] == tracks@[index as int]@);
            assert(more =~= held.push(tracks@[index as int]@));
            if same_path(tracks[index].as_str(), mixed.as_str()) {
                assert(more[index as int] == tracks@[index as int]@);
                whole = true;
            } else {
                assert(holds_path(more, mixed@) ==> holds_path(held, mixed@)) by {
                    if holds_path(more, mixed@) {
                        let i = choose|i: int|
                            0 <= i < more.len() && crate::paths::components(#[trigger] more[i])
                                == crate::paths::components(mixed@);
                        assert(held[i] == more[i]);
                    }
                }
                assert(holds_path(held, mixed@) ==> holds_path(more, mixed@)) by {
                    if holds_path(held, mixed@) {
                        let i = choose|i: int|
                            0 <= i < held.len() && crate::paths::components(#[trigger] held[i])
                                == crate::paths::components(mixed@);
                        assert(held[i] == more[i]);
                    }
                }
            }
            index += 1;
        }
        assert(texts(tracks@).take(tracks@.len() as int) =~= texts(tracks@));
        self.tracks = tracks;
        if whole {
            self.stage = RecoveryStage::Measure;
        } else {
            match recovered_tracks(self.folder.as_str(), &self.tracks, None) {
                Some(status) => {
                    self.conclude(status);
                },
                None => {},
            }
        }
    }

    /// Takes what happened and moves on to what is to be done next.
    pub fn step(&mut self, event: RecoveryEvent)
        requires
            old(self).wf(),
            event matches RecoveryEvent::Named(tracks) ==> tracks@.len() <= u32::MAX,
            old(self).stage is Measure ==> old(self).tracks@.len() > 0,
        ensures
            final(self).wf(),
            final(self)@ == old(self)@.next(event),
            final(self).stage is Measure ==> final(self).tracks@.len() > 0,
    {
        match (self.stage, event) {
            (RecoveryStage::Name, RecoveryEvent::Named(tracks)) => {
                self.named(tracks);
                assert(texts(self.tracks@).len() == self.tracks@.len());
            },
            (RecoveryStage::Measure, RecoveryEvent::Measured(length)) => {
                match recovered_tracks(self.folder.as_str(), &self.tracks, length) {
                    Some(status) => {
                        self.conclude(status);
                    },
                    None => {},
                }
            },
            (RecoveryStage::Look, RecoveryEvent::Looked { by_track, present }) => if present {
                self.stage = RecoveryStage::JoinMixed { by_track };
            } else {
                self.conclude(unrecovered(false, "No audio checkpoints found".to_owned()));
            },
            (RecoveryStage::JoinMixed { .. }, RecoveryEvent::Joined(joined)) => match joined {
                Ok(count) => {
                    self.stage = RecoveryStage::JoinMicrophone { expected: count };
                },
                Err(reason) => {
                    self.conclude(mixed_not_joined(reason));
                },
            },
            (RecoveryStage::JoinMicrophone { expected }, RecoveryEvent::Joined(joined)) => {
                self.note_failure("mic", joined);
                self.stage = RecoveryStage::JoinSystem { expected };
            },
            (RecoveryStage::JoinMicrophone { expected }, RecoveryEvent::Absent) => {
                self.stage = RecoveryStage::JoinSystem { expected };
            },
            (RecoveryStage::JoinSystem { expected }, RecoveryEvent::Joined(joined)) => {
                self.note_failure("system", joined);
                let status = joined_pieces(self.folder.as_str(), expected, &self.failures);
                self.conclude(status);
            },
            (RecoveryStage::JoinSystem { expected }, RecoveryEvent::Absent) => {
                let status = joined_pieces(self.folder.as_str(), expected, &self.failures);
                self.conclude(status);
            },
            _ => {},
        }
    }
}

/// A recovery that was begun can always be reported: it is done exactly when it has an
/// outcome.
pub proof fn recovery_is_reported_when_done(run: RecoveryModel, event: RecoveryEvent)
    requires
        run.stage is Done <==> run.outcome is Some,
    ensures
        run.next(event).stage is Done <==> run.next(event).outcome is Some,
{
}

/// The mixed recording comes first: a separate track is joined only after it was, and with
/// exactly as many pieces, and whatever becomes of the separate tracks it is reported.
pub proof fn mixed_recording_comes_first(run: RecoveryModel, event: RecoveryEvent)
    ensures
        run.next(event).stage matches RecoveryStage::JoinMicrophone { expected } ==> run.next(
            event,
        ) == run || (run.stage is JoinMixed && event == RecoveryEvent::Joined(Ok(expected))),
        run.stage is JoinSystem && run.next(event).stage is Done ==> {
            &&& run.next(event).outcome matches Some(status) && status.audio_file_path == Some(
                inside(run.folder, "audio.mp4"@),
            )
        },
{
}

/// Where the joining of one track stands, which is what the caller is to do next.
#[derive(Clone, Copy, Debug, PartialEq, Eq, Structural)]
pub enum JoinStage {
    /// Drop what an earlier attempt left.
    ClearTemporary,
    /// Join the pieces into the temporary file.
    Concat,
    /// See whether a track is already there.
    Check,
    /// Remove it.
    Replace,
    /// Give the temporary file the track's name.
    Promote,
    /// Mark the pieces as joined.
    Mark,
    /// Remove the list of the pieces.
    Tidy,
    /// Drop the temporary file of an attempt that failed.
    DropTemporary,
    Joined,
    Failed,
}

/// What the caller says happened.
#[derive(Debug)]
pub enum JoinEvent {
    Done,
    Failed(String),
    /// Whether the track is already there.
    Exists(bool),
}

/// One track that is being joined. The error is known once something failed.
pub struct TrackJoin {
    pub output: String,
    pub stage: JoinStage,
    pub error: Option<String>,
}

/// What is said when a step of the joining failed.
pub open spec fn join_failure(stage: JoinStage, output: Seq<char>, reason: Seq<char>) -> Seq<char> {
    match stage {
        JoinStage::Concat => "Failed to merge "@ + output + ": "@ + reason,
        JoinStage::Replace => "Failed to replace "@ + output + ": "@ + reason,
        JoinStage::Promote => "Failed to promote "@ + output + ": "@ + reason,
        _ => "Failed to mark recovered track: "@ + reason,
    }
}

impl TrackJoin {
    /// The event belongs to where the joining stands.
    pub open spec fn expects(&self, event: JoinEvent) -> bool {
        match self.stage {
            JoinStage::Check => event is Exists,
            JoinStage::Joined | JoinStage::Failed => false,
            _ => !(event is Exists),
        }
    }

    /// Where the joining stands after an event. What was there is removed only once its
    /// replacement was made.
    pub open spec fn next(&self, event: JoinEvent) -> JoinStage {
        match self.stage {
            JoinStage::ClearTemporary => JoinStage::Concat,
            JoinStage::Concat => if event is Done {
                JoinStage::Check
            } else {
                JoinStage::DropTemporary
            },
            JoinStage::Check => if event == JoinEvent::Exists(true) {
                JoinStage::Replace
            } else {
                JoinStage::Promote
            },
            JoinStage::Replace => if event is Done {
                JoinStage::Promote
            } else {
                JoinStage::Failed
            },
            JoinStage::Promote => if event is Done {
                JoinStage::Mark
            } else {
                JoinStage::Failed
            },
            JoinStage::Mark => if event is Done {
                JoinStage::Tidy
            } else {
                JoinStage::Failed
            },
            JoinStage::Tidy => JoinStage::Joined,
            JoinStage::DropTemporary => JoinStage::Failed,
            JoinStage::Joined => JoinStage::Joined,
            JoinStage::Failed => JoinStage::Failed,
        }
    }

    /// A failed clearing, tidying or dropping of a temporary file costs nothing.
    pub open spec fn fails(&self, event: JoinEvent) -> bool {
        event is Failed && (self.stage is Concat || self.stage is Replace || self.stage is Promote
            || self.stage is Mark)
    }

    pub fn new(output: &str) -> (join: TrackJoin)
        ensures
            join.output@ == output@,
            join.stage == JoinStage::ClearTemporary,
            join.error is None,
    {
        TrackJoin { output: output.to_owned(), stage: JoinStage::ClearTemporary, error: None }
    }

    fn failure(&self, reason: &str) -> (text: String)
        ensures
            text@ == join_failure(self.stage, self.output@, reason@),
    {
        let head = match self.stage {
            JoinStage::Concat => "Failed to merge ",
            JoinStage::Replace => "Failed to replace ",
            JoinStage::Promote => "Failed to promote ",
            _ => {
                return joined("Failed to mark recovered track: ", reason);
            },
        };
        let mut text = joined(head, self.output.as_str());
        text.append(": ");
        text.append(reason);
        text
    }

    /// Takes what happened and moves on to what is to be done next.
    pub fn step(&mut self, event: JoinEvent)
        requires
            old(self).expects(event),
        ensures
            final(self).output == old(self).output,
            final(self).stage == old(self).next(event),
            if old(self).fails(event) {
                final(self).error matches Some(text) && text@ == join_failure(
                    old(self).stage,
                    old(self).output@,
                    event->Failed_0@,
                )
            } else {
                final(self).error == old(self).error
            },
    {
        let stage = self.stage;
        let (done, there) = match &event {
            JoinEvent::Done => (true, false),
            JoinEvent::Failed(_) => (false, false),
            JoinEvent::Exists(found) => (false, *found),
        };
        match (stage, event) {
            (JoinStage::Concat, JoinEvent::Failed(reason)) | (
                JoinStage::Replace,
                JoinEvent::Failed(reason),
            ) | (JoinStage::Promote, JoinEvent::Failed(reason)) | (
                JoinStage::Mark,
                JoinEvent::Failed(reason),
            ) => {
                let text = self.failure(reason.as_str());
                self.error = Some(text);
            },
            _ => {},
        }
        self.stage = match stage {
            JoinStage::ClearTemporary => JoinStage::Concat,
            JoinStage::Concat => if done {
                JoinStage::Check
            } else {
                JoinStage::DropTemporary
            },
            JoinStage::Check => if there {
                JoinStage::Replace
            } else {
                JoinStage::Promote
            },
            JoinStage::Replace => if done {
                JoinStage::Promote
            } else {
                JoinStage::Failed
            },
            JoinStage::Promote => if done {
                JoinStage::Mark
            } else {
                JoinStage::Failed
            },
            JoinStage::Mark => if done {
                JoinStage::Tidy
            } else {
                JoinStage::Failed
            },
            JoinStage::Tidy => JoinStage::Joined,
            JoinStage::DropTemporary => JoinStage::Failed,
            JoinStage::Joined => JoinStage::Joined,
            JoinStage::Failed => JoinStage::Failed,
        };
    }
}

/// A joining that failed says why, and one that has not failed says nothing.
pub open spec fn error_is_known(join: TrackJoin) -> bool {
    join.error is Some <==> (join.stage is DropTemporary || join.stage is Failed)
}

/// A joining ends after a bounded number of steps, and a failed one has its reason.
pub proof fn joining_ends_with_a_reason(before: TrackJoin, after: TrackJoin, event: JoinEvent)
    requires
        before.expects(event),
        error_is_known(before),
        after.stage == before.next(event),
        after.error is Some <==> (before.fails(event) || before.error is Some),
    ensures
        error_is_known(after),
        join_left(after.stage) < join_left(before.stage),
{
}

/// How many steps a joining has left, at most.
pub open spec fn join_left(stage: JoinStage) -> int {
    match stage {
        JoinStage::ClearTemporary => 7,
        JoinStage::Concat => 6,
        JoinStage::Check => 5,
        JoinStage::Replace => 4,
        JoinStage::Promote => 3,
        JoinStage::Mark => 2,
        JoinStage::Tidy => 1,
        JoinStage::DropTemporary => 1,
        JoinStage::Joined => 0,
        JoinStage::Failed => 0,
    }
}

/// Tracks that only lack their names are named and nothing more is done; only where there are
/// none are pieces looked for, and without pieces that is what is said.
pub proof fn named_tracks_come_before_pieces(run: RecoveryModel, tracks: Vec<String>, by_track: bool)
    ensures
        run.stage is Name ==> ({
            let after = run.next(RecoveryEvent::Named(tracks));
            &&& tracks@.len() == 0 ==> after.stage is Look && after.outcome == run.outcome
            &&& tracks@.len() > 0 ==> after.tracks == texts(tracks@) && (after.stage is Measure || (
            after.stage is Done && (after.outcome matches Some(report) && report.status
                == "partial"@ && report.chunk_count == tracks@.len())))
        }),
        run.stage is Look ==> {
            &&& run.next(RecoveryEvent::Looked { by_track, present: true }).stage
                == RecoveryStage::JoinMixed { by_track }
            &&& run.next(RecoveryEvent::Looked { by_track, present: false }).stage is Done
            &&& run.next(
                RecoveryEvent::Looked { by_track, present: false },
            ).outcome matches Some(report) && report.status == "none"@
                && report.audio_file_path is None
        },
{
}

/// A separate track that could not be joined is noted with its reason, under its own name and
/// behind what was noted before, and the other one is joined all the same. The mixed recording
/// is what counts: without it the recovery ends, with its reason.
pub proof fn lost_tracks_are_noted(run: RecoveryModel, expected: u32, count: u32, reason: String)
    ensures
        run.stage is JoinMixed ==> {
            let after = run.next(RecoveryEvent::Joined(Err(reason)));
            &&& after.stage is Done
            &&& after.outcome matches Some(report) && report.message == reason@
                && report.audio_file_path is None
        },
        run.stage is JoinMixed ==> run.next(RecoveryEvent::Joined(Ok(count))).stage
            == (RecoveryStage::JoinMicrophone { expected: count }),
        run.stage == (RecoveryStage::JoinMicrophone { expected }) ==> {
            let failed = run.next(RecoveryEvent::Joined(Err(reason)));
            let done = run.next(RecoveryEvent::Joined(Ok(count)));
            let absent = run.next(RecoveryEvent::Absent);
            &&& failed.stage == (RecoveryStage::JoinSystem { expected })
            &&& done.stage == failed.stage && absent.stage == failed.stage
            &&& failed.failures == run.failures.push(("mic"@, reason@))
            &&& done.failures == run.failures && absent.failures == run.failures
        },
        run.stage == (RecoveryStage::JoinSystem { expected }) ==> {
            let failed = run.next(RecoveryEvent::Joined(Err(reason)));
            let done = run.next(RecoveryEvent::Joined(Ok(count)));
            let absent = run.next(RecoveryEvent::Absent);
            &&& failed.failures == run.failures.push(("system"@, reason@))
            &&& done.failures == run.failures && absent.failures == run.failures
            &&& failed.outcome matches Some(report) && report.status == "partial"@
                && report.chunk_count == expected
            &&& done.outcome == absent.outcome
            &&& done.outcome matches Some(report) && report.chunk_count == expected && (
            report.status == "success"@ <==> run.failures.len() == 0)
        },
{
    reveal_strlit("success");
    reveal_strlit("partial");
    assert("success"@[0] == 's');
    assert("partial"@[0] == 'p');
}

/// A track that is there is removed only once the pieces were joined, and only then is the
/// joined file given its name; the pieces are marked only behind that. What failed is said
/// with its reason.
pub proof fn track_is_replaced_only_when_joined(join: TrackJoin, event: JoinEvent)
    requires
        join.expects(event),
    ensures
        join.next(event) is Check ==> join.stage is Concat && event is Done,
        join.next(event) is Replace ==> join.stage is Check && event == JoinEvent::Exists(true),
        join.next(event) is Promote ==> (join.stage is Check && event == JoinEvent::Exists(false))
            || (join.stage is Replace && event is Done),
        join.next(event) is Mark ==> join.stage is Promote && event is Done,
        join.next(event) is Tidy ==> join.stage is Mark && event is Done,
        join.next(event) is Joined ==> join.stage is Tidy,
        join.stage is Concat && event is Failed ==> join.next(event) is DropTemporary,
        event is Done && (join.stage is ClearTemporary || join.stage is Tidy) ==> !(join.next(
            event,
        ) is Failed),
        event matches JoinEvent::Failed(reason) ==> crate::text::ends_with(
            join_failure(join.stage, join.output@, reason@),
            reason@,
        ),
{
    if let JoinEvent::Failed(reason) = event {
        let output = join.output@;
        crate::recording_commands::lemma_parts("Failed to merge "@, output, ": "@, reason@);
        crate::recording_commands::lemma_parts("Failed to replace "@, output, ": "@, reason@);
        crate::recording_commands::lemma_parts("Failed to promote "@, output, ": "@, reason@);
        crate::recording_commands::lemma_end("Failed to mark recovered track: "@, reason@);
    }
}

} // verus!
