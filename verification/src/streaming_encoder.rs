//! Encoding a track while it is being recorded, rather than after.
//!
//! Bytes go to a file under a temporary name, which gets its final name only when the
//! encoder has closed cleanly, so nothing ever reads a half-written track.

use crate::bytes::{bytes_from, push_bytes};
use crate::digest::all_bytes;
use crate::paths::{extend_name, extension_of_name, name_extended, name_extension};
use crate::text::{
    ascii_lower_text, ascii_lowered_text, chars_of, contains_text, cut, decimal, decimal_text,
    holds_text, joined, piece, same_text, spelled, split_on, text_of, texts, trim, trimmed,
};
use vstd::prelude::*;

verus! {

/// Extension of a track still being written. Never read.
pub const PARTIAL_EXT: &'static str = "part";

/// How much of the encoder's complaining to keep for the error message.
pub const STDERR_KEPT_BYTES: usize = 4096;

/// What to encode into, and what to call the result.
#[derive(Debug, Clone)]
pub struct EncodeFormat {
    /// Codec arguments, as passed to the encoder.
    pub codec_args: Vec<&'static str>,
    /// Name of the container.
    pub container: &'static str,
}

/// What the arguments of a list spell.
pub open spec fn args(list: Seq<&'static str>) -> Seq<Seq<char>> {
    list.map_values(|arg: &'static str| arg@)
}

/// The arguments of the delivery format.
pub open spec fn mp4_aac_args() -> Seq<Seq<char>> {
    seq![
        "-c:a"@,
        "aac"@,
        "-b:a"@,
        "192k"@,
        "-profile:a"@,
        "aac_low"@,
        "-movflags"@,
        "empty_moov+default_base_moof"@,
        "-frag_duration"@,
        "2000000"@,
    ]
}

/// The delivery format. Written in fragments of two seconds, so that an interrupted
/// recording plays up to its last complete one.
pub fn mp4_aac() -> (format: EncodeFormat)
    ensures
        args(format.codec_args@) == mp4_aac_args(),
        format.container@ == "mp4"@,
{
    let codec_args: Vec<&'static str> = vec![
        "-c:a",
        "aac",
        "-b:a",
        "192k",
        "-profile:a",
        "aac_low",
        "-movflags",
        "empty_moov+default_base_moof",
        "-frag_duration",
        "2000000",
    ];
    assert(args(codec_args@) =~= mp4_aac_args());
    EncodeFormat { codec_args, container: "mp4" }
}

/// The working-track format: lossless, and readable up to where it was cut.
pub fn flac() -> (format: EncodeFormat)
    ensures
        args(format.codec_args@) == seq!["-c:a"@, "flac"@, "-sample_fmt"@, "s16"@],
        format.container@ == "flac"@,
{
    let codec_args: Vec<&'static str> = vec!["-c:a", "flac", "-sample_fmt", "s16"];
    assert(args(codec_args@) =~= seq!["-c:a"@, "flac"@, "-sample_fmt"@, "s16"@]);
    EncodeFormat { codec_args, container: "flac" }
}

/// The arguments that come before those of the codec: raw samples from a pipe.
pub open spec fn input_args(sample_rate: u32, channels: u16) -> Seq<Seq<char>> {
    seq![
        "-hide_banner"@,
        "-loglevel"@,
        "error"@,
        "-f"@,
        "f32le"@,
        "-ar"@,
        decimal(sample_rate as nat),
        "-ac"@,
        decimal(channels as nat),
        "-i"@,
        "pipe:0"@,
    ]
}

/// How the encoder is called: samples come in over a pipe and the track goes out over
/// another.
pub fn encoder_args(sample_rate: u32, channels: u16, format: &EncodeFormat) -> (list: Vec<String>)
    ensures
        texts(list@) == input_args(sample_rate, channels) + args(format.codec_args@) + seq![
            "-f"@,
            format.container@,
            "pipe:1"@,
        ],
{
    let mut list: Vec<String> = Vec::new();
    list.push("-hide_banner".to_owned());
    list.push("-loglevel".to_owned());
    list.push("error".to_owned());
    list.push("-f".to_owned());
    list.push("f32le".to_owned());
    list.push("-ar".to_owned());
    list.push(text_of(&decimal_text(sample_rate as u64)));
    list.push("-ac".to_owned());
    list.push(text_of(&decimal_text(channels as u64)));
    list.push("-i".to_owned());
    list.push("pipe:0".to_owned());
    assert(texts(list@) =~= input_args(sample_rate, channels));
    let ghost head = texts(list@);
    let ghost codec = args(format.codec_args@);
    let mut index: usize = 0;
    assert(head + codec.take(0) =~= head);
    while index < format.codec_args.len()
        invariant
            index <= format.codec_args@.len(),
            codec == args(format.codec_args@),
            texts(list@) == head + codec.take(index as int),
        decreases format.codec_args@.len() - index,
    {
        let arg: &'static str = format.codec_args[index];
        assert(codec[index as int] == arg@);
        let ghost had = list@;
        list.push(arg.to_owned());
        assert(texts(list@) =~= texts(had).push(arg@));
        assert(codec.take(index + 1) =~= codec.take(index as int).push(arg@));
        index += 1;
        assert(texts(list@) =~= head + codec.take(index as int));
    }
    assert(codec.take(codec.len() as int) =~= codec);
    list.push("-f".to_owned());
    list.push(format.container.to_owned());
    list.push("pipe:1".to_owned());
    assert(texts(list@) =~= head + codec + seq!["-f"@, format.container@, "pipe:1"@]);
    list
}

/// Where a track's encoded bytes go.
///
/// In the application that is a file, encrypted or not; a trait so that the encryption
/// sits in front of the file without anything above knowing, and so that a track can be
/// held in memory.
pub trait Sink {
    /// The bytes that were taken so far.
    spec fn taken(&self) -> Seq<u8>;

    /// The track is closed.
    spec fn closed(&self) -> bool;

    /// The errors that were reported so far, in their order.
    spec fn failures(&self) -> Seq<String>;

    /// Takes bytes. A write that fails may have taken some of them, from the first on.
    fn write(&mut self, bytes: &[u8]) -> (written: Result<(), String>)
        ensures
            final(self).closed() == old(self).closed(),
            match written {
                Ok(_) => {
                    &&& final(self).taken() == old(self).taken() + bytes@
                    &&& final(self).failures() == old(self).failures()
                },
                Err(error) => {
                    &&& exists|part: int|
                        0 <= part <= bytes@.len() && final(self).taken() == old(self).taken()
                            + #[trigger] bytes@.take(part)
                    &&& final(self).failures() == old(self).failures().push(error)
                },
            },
    ;

    /// Closes the track. No bytes are taken by that.
    fn finish(&mut self) -> (finished: Result<(), String>)
        ensures
            final(self).taken() == old(self).taken(),
            match finished {
                Ok(_) => final(self).closed() && final(self).failures() == old(self).failures(),
                Err(error) => final(self).failures() == old(self).failures().push(error),
            },
    ;
}

/// A track held in memory.
pub struct MemorySink {
    pub bytes: Vec<u8>,
    pub finished: bool,
}

impl MemorySink {
    pub fn new() -> (sink: MemorySink)
        ensures
            sink.taken() == Seq::<u8>::empty(),
            !sink.closed(),
    {
        let sink = MemorySink { bytes: Vec::new(), finished: false };
        assert(sink.bytes@ =~= Seq::<u8>::empty());
        sink
    }
}

impl Sink for MemorySink {
    open spec fn taken(&self) -> Seq<u8> {
        self.bytes@
    }

    open spec fn closed(&self) -> bool {
        self.finished
    }

    /// Memory never fails.
    open spec fn failures(&self) -> Seq<String> {
        Seq::empty()
    }

    fn write(&mut self, bytes: &[u8]) -> (written: Result<(), String>) {
        push_bytes(&mut self.bytes, bytes);
        Ok(())
    }

    fn finish(&mut self) -> (finished: Result<(), String>) {
        self.finished = true;
        Ok(())
    }
}

/// A sink stopped within a piece: it took what came before the piece, and so much of it.
pub open spec fn stopped_within(
    before: Seq<u8>,
    after: Seq<u8>,
    pieces: Seq<Vec<u8>>,
    index: int,
    part: int,
) -> bool {
    &&& 0 <= index < pieces.len()
    &&& 0 <= part <= pieces[index]@.len()
    &&& after == before + all_bytes(pieces, index) + pieces[index]@.take(part)
}

/// Moves everything an encoder gave to a sink and closes it. Returns how many bytes that
/// were. The first error of the sink ends it and is handed on, and there is no other: what
/// comes behind the piece it failed on is not tried, and the track is not closed then. An
/// error of closing comes when everything was taken.
pub fn drain_into<S: Sink>(sink: &mut S, pieces: &Vec<Vec<u8>>) -> (total: Result<u64, String>)
    requires
        all_bytes(pieces@, pieces@.len() as int).len() <= u64::MAX,
    ensures
        match total {
            Ok(count) => {
                &&& final(sink).taken() == old(sink).taken() + all_bytes(
                    pieces@,
                    pieces@.len() as int,
                )
                &&& final(sink).closed()
                &&& final(sink).failures() == old(sink).failures()
                &&& count == all_bytes(pieces@, pieces@.len() as int).len()
            },
            Err(error) => {
                &&& final(sink).failures() == old(sink).failures().push(error)
                &&& {
                    ||| final(sink).closed() == old(sink).closed() && exists|index: int, part: int|
                        #[trigger]
                        stopped_within(
                            old(sink).taken(),
                            final(sink).taken(),
                            pieces@,
                            index,
                            part,
                        )
                    ||| final(sink).taken() == old(sink).taken() + all_bytes(
                        pieces@,
                        pieces@.len() as int,
                    )
                }
            },
        },
{
    let ghost before = sink.taken();
    let ghost failures = sink.failures();
    let ghost closed = sink.closed();
    let mut total: u64 = 0;
    let mut index: usize = 0;
    assert(before + all_bytes(pieces@, 0) =~= before);
    while index < pieces.len()
        invariant
            index <= pieces@.len(),
            all_bytes(pieces@, pieces@.len() as int).len() <= u64::MAX,
            total == all_bytes(pieces@, index as int).len(),
            sink.taken() == before + all_bytes(pieces@, index as int),
            sink.failures() == failures,
            sink.closed() == closed,
            before == old(sink).taken(),
            failures == old(sink).failures(),
            closed == old(sink).closed(),
        decreases pieces@.len() - index,
    {
        let ghost so_far = sink.taken();
        proof {
            crate::digest::lemma_fewer_bytes(pieces@, index + 1, pieces@.len() as int);
        }
        match sink.write(pieces[index].as_slice()) {
            Ok(_) => {},
            Err(error) => {
                proof {
                    let piece = pieces@[index as int]@;
                    let part = choose|part: int|
                        0 <= part <= piece.len() && sink.taken() == so_far + #[trigger] piece.take(
                            part,
                        );
                    assert(stopped_within(before, sink.taken(), pieces@, index as int, part));
                }
                return Err(error);
            },
        }
        total += pieces[index].len() as u64;
        index += 1;
        assert(sink.taken() =~= before + all_bytes(pieces@, index as int));
    }
    match sink.finish() {
        Ok(_) => Ok(total),
        Err(error) => Err(error),
    }
}

/// Where the draining of an encoder that is still running stands, which is what the caller
/// is to do next.
#[derive(Clone, Copy, Debug, PartialEq, Eq, Structural)]
pub enum DrainStage {
    /// Read what the encoder gave.
    Read,
    /// Hand so many bytes to the sink.
    Write(usize),
    /// Close the sink.
    Close,
    Done,
    Failed,
}

/// What the caller says happened.
#[derive(Debug)]
pub enum DrainEvent {
    /// So many bytes were read; none at the end.
    Got(usize),
    Done,
    Failed(String),
}

/// The draining of an encoder that is still running, piece by piece.
pub struct Drain {
    pub stage: DrainStage,
    pub total: u64,
    pub error: Option<String>,
}

impl Drain {
    /// The event belongs to where the draining stands.
    pub open spec fn expects(&self, event: DrainEvent) -> bool {
        match (self.stage, event) {
            (DrainStage::Read, DrainEvent::Done) => false,
            (DrainStage::Read, _) => true,
            (DrainStage::Write(_), DrainEvent::Got(_)) => false,
            (DrainStage::Write(len), _) => self.total + len <= u64::MAX,
            (DrainStage::Close, DrainEvent::Got(_)) => false,
            (DrainStage::Close, _) => true,
            _ => false,
        }
    }

    /// Where the draining stands after an event: every piece that was read is handed on before
    /// the next, and the sink is closed only behind the last. The first failure ends it.
    pub open spec fn next(&self, event: DrainEvent) -> (DrainStage, int) {
        match (self.stage, event) {
            (_, DrainEvent::Failed(_)) => (DrainStage::Failed, self.total as int),
            (DrainStage::Read, DrainEvent::Got(len)) => (
                if len == 0 {
                    DrainStage::Close
                } else {
                    DrainStage::Write(len)
                },
                self.total as int,
            ),
            (DrainStage::Write(len), _) => (DrainStage::Read, self.total + len),
            (DrainStage::Close, _) => (DrainStage::Done, self.total as int),
            (stage, _) => (stage, self.total as int),
        }
    }

    pub fn new() -> (drain: Drain)
        ensures
            drain.stage == DrainStage::Read,
            drain.total == 0,
            drain.error is None,
    {
        Drain { stage: DrainStage::Read, total: 0, error: None }
    }

    /// Whether another piece of this length can be counted.
    pub fn has_room(&self, len: usize) -> (room: bool)
        ensures
            room == (self.total + len <= u64::MAX),
    {
        len as u64 <= u64::MAX - self.total
    }

    /// Takes what came of a step.
    pub fn step(&mut self, event: DrainEvent)
        requires
            old(self).expects(event),
        ensures
            (final(self).stage, final(self).total as int) == old(self).next(event),
            final(self).error == match event {
                DrainEvent::Failed(reason) => Some(reason),
                _ => old(self).error,
            },
    {
        match event {
            DrainEvent::Failed(reason) => {
                self.stage = DrainStage::Failed;
                self.error = Some(reason);
            },
            DrainEvent::Got(len) => {
                self.stage = if len == 0 {
                    DrainStage::Close
                } else {
                    DrainStage::Write(len)
                };
            },
            DrainEvent::Done => match self.stage {
                DrainStage::Write(len) => {
                    self.total = self.total + len as u64;
                    self.stage = DrainStage::Read;
                },
                _ => {
                    self.stage = DrainStage::Done;
                },
            },
        }
    }
}

/// Adds to what an encoder complained about. Once it is more than twice what is kept,
/// only the newest part stays.
pub fn keep_complaints(kept: &mut Vec<u8>, more: &[u8])
    ensures
        ({
            let all = old(kept)@ + more@;
            final(kept)@ == if all.len() > 2 * STDERR_KEPT_BYTES {
                all.skip(all.len() - STDERR_KEPT_BYTES)
            } else {
                all
            }
        }),
{
    push_bytes(kept, more);
    if kept.len() > STDERR_KEPT_BYTES * 2 {
        let tail = bytes_from(kept.as_slice(), kept.len() - STDERR_KEPT_BYTES);
        *kept = tail;
    }
}

/// One track being encoded, as far as it is counted.
pub struct EncoderTrack {
    pub label: String,
    pub open: bool,
    pub samples_written: u64,
    pub sample_rate: u32,
}

impl EncoderTrack {
    pub fn new(label: String, sample_rate: u32) -> (track: EncoderTrack)
        ensures
            track == (EncoderTrack { label, open: true, samples_written: 0, sample_rate }),
    {
        EncoderTrack { label, open: true, samples_written: 0, sample_rate }
    }

    /// Whether more samples may come.
    pub fn may_write(&self) -> (allowed: Result<(), String>)
        ensures
            match allowed {
                Ok(()) => self.open,
                Err(reason) => !self.open && reason@ == "Encoder for "@ + self.label@
                    + " is already closed"@,
            },
    {
        if self.open {
            Ok(())
        } else {
            let mut reason = joined("Encoder for ", self.label.as_str());
            reason.append(" is already closed");
            Err(reason)
        }
    }

    /// Samples were handed over.
    pub fn wrote(&mut self, samples: usize)
        requires
            old(self).samples_written + samples <= u64::MAX,
        ensures
            *final(self) == (EncoderTrack {
                samples_written: (old(self).samples_written + samples) as u64,
                ..*old(self)
            }),
    {
        self.samples_written = self.samples_written + samples as u64;
    }

    /// Seconds of audio handed over so far, per channel, as a fraction.
    pub fn seconds_written(&self, channels: u16) -> (seconds: (u64, u64))
        ensures
            seconds.0 == self.samples_written,
            seconds.1 == self.sample_rate * if channels == 0 {
                1int
            } else {
                channels as int
            },
    {
        let per_frame: u64 = if channels == 0 {
            1
        } else {
            channels as u64
        };
        assert(0 <= self.sample_rate * per_frame <= u32::MAX * 65535) by (nonlinear_arith)
            requires
                0 <= self.sample_rate <= u32::MAX,
                0 <= per_frame <= 65535,
        ;
        (self.samples_written, self.sample_rate as u64 * per_frame)
    }

    /// Whether a track whose encoder has ended gets its final name.
    pub fn finish(&mut self, success: bool, complaints: &str) -> (publish: Result<(), String>)
        ensures
            *final(self) == (EncoderTrack { open: false, ..*old(self) }),
            match publish {
                Ok(()) => success,
                Err(reason) => !success && reason@ == "FFmpeg failed to encode the "@ + old(
                    self,
                ).label@ + " track: "@ + trimmed(complaints@),
            },
    {
        self.open = false;
        if success {
            return Ok(());
        }
        let said = text_of(&trim(&chars_of(complaints)));
        let mut reason = joined("FFmpeg failed to encode the ", self.label.as_str());
        reason.append(" track: ");
        reason.append(said.as_str());
        Err(reason)
    }
}

/// The name a track is written under while it is unfinished.
pub fn partial_path_for(final_path: &str) -> (path: String)
    ensures
        path@ == name_extended(final_path@, "."@ + PARTIAL_EXT@),
{
    let ending = joined(".", PARTIAL_EXT);
    extend_name(final_path, ending.as_str())
}

/// Whether an unfinished track is given its final name: not where nothing was encoded.
pub fn publish_partial(final_path: &str, written: u64) -> (publish: Result<(), String>)
    ensures
        match publish {
            Ok(()) => written > 0,
            Err(reason) => written == 0 && reason@ == "Nothing was encoded to "@ + name_extended(
                final_path@,
                "."@ + PARTIAL_EXT@,
            ),
        },
{
    if written > 0 {
        return Ok(());
    }
    let partial = partial_path_for(final_path);
    Err(joined("Nothing was encoded to ", partial.as_str()))
}

/// What is done with an entry of a recording's folder after the recording never closed.
#[derive(Debug)]
pub enum PartialRecovery {
    /// It is not an unfinished track.
    Leave,
    /// The finished track is the better copy, or nothing was encoded.
    Drop,
    /// It gets this name.
    Publish(String),
}

/// A file name whose extension says that the track is unfinished.
pub open spec fn is_unfinished(name: Seq<char>) -> bool {
    extension_of_name(name) == Some(PARTIAL_EXT@)
}

fn unfinished(name: &Vec<char>) -> (found: bool)
    ensures
        found == is_unfinished(name@),
{
    match name_extension(name) {
        Some(extension) => {
            let text = text_of(&extension);
            same_text(text.as_str(), PARTIAL_EXT)
        },
        None => false,
    }
}

/// What is done with an entry, by its name: the name it would get, whether there is a
/// file of that name, and how much was encoded.
pub fn recover_partial_tracks(name: &str, finished_exists: bool, written: u64) -> (what:
    PartialRecovery)
    ensures
        match what {
            PartialRecovery::Leave => !is_unfinished(name@),
            PartialRecovery::Drop => is_unfinished(name@) && (finished_exists || written == 0),
            PartialRecovery::Publish(finished) => {
                &&& is_unfinished(name@)
                &&& !finished_exists
                &&& written > 0
                &&& finished@ + "."@ + PARTIAL_EXT@ == name@
            },
        },
{
    let chars = chars_of(name);
    if !unfinished(&chars) {
        return PartialRecovery::Leave;
    }
    if finished_exists || written == 0 {
        return PartialRecovery::Drop;
    }
    proof {
        lemma_extension_is_the_end(name@);
        reveal_strlit("part");
        reveal_strlit(".");
    }
    let stem = piece(&chars, 0, chars.len() - 5);
    let finished = text_of(&stem);
    assert(finished@ + "."@ + PARTIAL_EXT@ =~= name@);
    PartialRecovery::Publish(finished)
}

/// The name that an unfinished track would get.
pub fn finished_name(name: &str) -> (finished: Option<String>)
    ensures
        match finished {
            Some(text) => is_unfinished(name@) && text@ + "."@ + PARTIAL_EXT@ == name@,
            None => !is_unfinished(name@),
        },
{
    match recover_partial_tracks(name, false, 1) {
        PartialRecovery::Publish(text) => Some(text),
        _ => None,
    }
}

/// A name is what stands before its last dot, the dot, and the extension.
proof fn lemma_extension_is_the_end(name: Seq<char>)
    requires
        extension_of_name(name) is Some,
    ensures
        ({
            let dot = crate::paths::last_dot(name);
            &&& 0 < dot < name.len()
            &&& name[dot] == '.'
            &&& name =~= name.take(dot) + seq!['.'] + extension_of_name(name)->0
        }),
    decreases name.len(),
{
    lemma_last_dot(name);
}

proof fn lemma_last_dot(name: Seq<char>)
    ensures
        ({
            let dot = crate::paths::last_dot(name);
            &&& -1 <= dot < name.len()
            &&& dot >= 0 ==> name[dot] == '.'
        }),
    decreases name.len(),
{
    if name.len() > 0 && name.last() != '.' {
        lemma_last_dot(name.drop_last());
    }
}

/// A line without the carriage return that it may end with.
pub open spec fn without_return(line: Seq<char>) -> Seq<char> {
    if line.len() > 0 && line.last() == '\r' {
        line.drop_last()
    } else {
        line
    }
}

/// A line of the decoder that complains about the audio itself.
pub open spec fn is_complaint(line: Seq<char>) -> bool {
    let lower = ascii_lowered_text(line);
    holds_text(lower, "invalid"@) || holds_text(lower, "error"@) || holds_text(lower, "[aac"@)
}

/// The complaints among pieces between line feeds.
pub open spec fn complaints_among(pieces: Seq<Seq<char>>) -> Seq<Seq<char>>
    decreases pieces.len(),
{
    if pieces.len() == 0 {
        Seq::empty()
    } else {
        let before = complaints_among(pieces.drop_last());
        let line = without_return(pieces.last());
        if is_complaint(line) {
            before.push(line)
        } else {
            before
        }
    }
}

/// What a decoder complained about, line by line.
pub fn decode_complaints(said: &str) -> (complaints: Vec<String>)
    ensures
        texts(complaints@) == complaints_among(cut(said@, '\n', '\n')),
{
    let pieces = split_on(&chars_of(said), '\n', '\n');
    let ghost lines = spelled(pieces@);
    let mut complaints: Vec<String> = Vec::new();
    let mut index: usize = 0;
    assert(lines.take(0) =~= Seq::<Seq<char>>::empty());
    assert(texts(complaints@) =~= complaints_among(lines.take(0)));
    while index < pieces.len()
        invariant
            index <= pieces@.len(),
            lines == spelled(pieces@),
            texts(complaints@) == complaints_among(lines.take(index as int)),
        decreases pieces@.len() - index,
    {
        let len: usize = pieces[index].len();
        assert(lines[index as int] == pieces@[index as int]@);
        assert(lines.take(index + 1).drop_last() =~= lines.take(index as int));
        let line = if len > 0 && pieces[index][len - 1] == '\r' {
            piece(&pieces[index], 0, len - 1)
        } else {
            piece(&pieces[index], 0, len)
        };
        assert(line@ =~= without_return(lines[index as int]));
        let lower = ascii_lower_text(&line);
        if contains_text(&lower, "invalid") || contains_text(&lower, "error") || contains_text(
            &lower,
            "[aac",
        ) {
            let ghost had = complaints@;
            let text = text_of(&line);
            complaints.push(text);
            assert(texts(complaints@) =~= texts(had).push(line@));
        }
        index += 1;
    }
    assert(lines.take(lines.len() as int) =~= lines);
    complaints
}

/// A track under its temporary name is known as unfinished, whatever it is called, and only
/// such a name is.
pub proof fn temporary_name_is_known(stem: Seq<char>)
    ensures
        stem.len() > 0 ==> is_unfinished(stem + ".part"@),
        !stem.contains('.') ==> !is_unfinished(stem),
        is_unfinished(stem) ==> crate::text::ends_with(stem, ".part"@),
{
    reveal_strlit("part");
    reveal_strlit(".part");
    assert(!"part"@.contains('.'));
    crate::paths::extension_stands_behind_the_last_dot(stem, "part"@);
    assert(stem.push('.') + "part"@ =~= stem + ".part"@);
    if !stem.contains('.') {
        crate::paths::extension_stands_behind_the_last_dot(stem, stem);
    }
    if is_unfinished(stem) {
        lemma_extension_is_the_end(stem);
        let dot = crate::paths::last_dot(stem);
        assert(stem.len() == dot + 1 + "part"@.len());
        assert(stem.skip(stem.len() - 5) =~= ".part"@);
    }
}

/// Every byte that was handed on is counted and no other: reading counts nothing, writing
/// counts what was read, and closing comes only behind an empty read. What fails ends it.
pub proof fn bytes_are_counted_as_they_are_handed_on(drain: Drain, len: usize, reason: String)
    ensures
        drain.stage is Read ==> {
            &&& len > 0 ==> drain.next(DrainEvent::Got(len)) == (
                DrainStage::Write(len),
                drain.total as int,
            )
            &&& drain.next(DrainEvent::Got(0)) == (DrainStage::Close, drain.total as int)
        },
        drain.stage == DrainStage::Write(len) ==> drain.next(DrainEvent::Done) == (
            DrainStage::Read,
            drain.total + len,
        ),
        drain.stage is Close ==> drain.next(DrainEvent::Done) == (
            DrainStage::Done,
            drain.total as int,
        ),
        drain.next(DrainEvent::Failed(reason)) == (DrainStage::Failed, drain.total as int),
{
}

/// Each line of a decoder counts for itself, without the carriage return it may end with: it is
/// kept as it is written if it speaks of something invalid, of an error or of the codec, in
/// whatever case.
pub proof fn complaints_are_picked_line_by_line(
    left: Seq<Seq<char>>,
    right: Seq<Seq<char>>,
    line: Seq<char>,
)
    requires
        line.len() == 0 || line.last() != '\r',
    ensures
        complaints_among(left + right) == complaints_among(left) + complaints_among(right),
        complaints_among(seq![line.push('\r')]) == complaints_among(seq![line]),
        ({
            let lower = ascii_lowered_text(line);
            let complains = holds_text(lower, "invalid"@) || holds_text(lower, "error"@)
                || holds_text(lower, "[aac"@);
            &&& complains ==> complaints_among(seq![line]) == seq![line]
            &&& !complains ==> complaints_among(seq![line]).len() == 0
        }),
    decreases right.len(),
{
    let whole = left + right;
    if right.len() == 0 {
        assert(whole =~= left);
        assert(complaints_among(left) + complaints_among(right) =~= complaints_among(left));
    } else {
        complaints_are_picked_line_by_line(left, right.drop_last(), line);
        assert(whole.drop_last() =~= left + right.drop_last());
        assert(complaints_among(whole) =~= complaints_among(left) + complaints_among(right));
    }
    let nothing = Seq::<Seq<char>>::empty();
    assert(complaints_among(nothing) =~= nothing);
    assert(seq![line].drop_last() =~= nothing);
    assert(seq![line.push('\r')].drop_last() =~= nothing);
    assert(line.push('\r').drop_last() =~= line);
    assert(complaints_among(seq![line]) =~= if is_complaint(line) {
        seq![line]
    } else {
        nothing
    });
    assert(complaints_among(seq![line.push('\r')]) =~= complaints_among(seq![line]));
}

/// The encoder is told the rate and the channels of what it is given.
pub proof fn encoder_is_told_the_rate(sample_rate: u32, channels: u16)
    ensures
        exists|i: int|
            0 <= i < input_args(sample_rate, channels).len() - 1 && #[trigger] input_args(
                sample_rate,
                channels,
            )[i] == "-ar"@ && input_args(sample_rate, channels)[i + 1] == decimal(
                sample_rate as nat,
            ),
        exists|i: int|
            0 <= i < input_args(sample_rate, channels).len() - 1 && #[trigger] input_args(
                sample_rate,
                channels,
            )[i] == "-ac"@ && input_args(sample_rate, channels)[i + 1] == decimal(channels as nat),
{
    let list = input_args(sample_rate, channels);
    assert(list[5] == "-ar"@ && list[6] == decimal(sample_rate as nat));
    assert(list[7] == "-ac"@ && list[8] == decimal(channels as nat));
}

} // verus!
