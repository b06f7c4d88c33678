//! What the detector heard, written down beside the audio it judged.
//!
//! A later pass over the stored audio has the file, but not the two timelines that
//! the live decision was made from. The record keeps them, one byte per window of
//! the stored track, so that the later pass can ask what the detector answered
//! instead of guessing.

use crate::bytes::{
    bytes_from, from_le32, le32, lemma_le32_reads_back, push_bytes, push_le32, read_le32,
    starts_with_bytes,
};
use crate::own_speech::WindowTimeline;
use crate::paths::{inside, join};
use crate::working_track::{working_dir, WORKING_DIR};
use vstd::prelude::*;

verus! {

/// Name of the record inside the working directory.
pub const RECORD_NAME: &'static str = "own-speech.tkgate";

/// Name of one still being written. Never read.
pub const PARTIAL_NAME: &'static str = "own-speech.tkgate.part";

/// The magic, the window length, the number of windows.
pub const HEADER_LEN: usize = 16;

/// Over nine days of windows: a damaged file must not ask for more.
pub const MAX_RECORD_WINDOWS: u32 = 16_777_216;

/// The bits of the first number that is not finite.
pub const INFINITE_BITS: u32 = 0x7f80_0000;

pub const UNKNOWN: u8 = 0;

pub const QUIET: u8 = 1;

pub const ACTIVE: u8 = 2;

/// First bytes of the file. The last one is the layout version.
pub open spec fn magic() -> Seq<u8> {
    seq![84u8, 75u8, 71u8, 65u8, 84u8, 69u8, 10u8, 1u8]
}

fn magic_bytes() -> (bytes: Vec<u8>)
    ensures
        bytes@ == magic(),
{
    let bytes: Vec<u8> = vec![84u8, 75u8, 71u8, 65u8, 84u8, 69u8, 10u8, 1u8];
    assert(bytes@ =~= magic());
    bytes
}

/// Where the record for a recording lives.
pub fn record_path(meeting_folder: &str) -> (path: String)
    ensures
        path@ == inside(inside(meeting_folder@, WORKING_DIR@), RECORD_NAME@),
{
    let folder = working_dir(meeting_folder);
    join(folder.as_str(), RECORD_NAME)
}

pub open spec fn code_of(flag: Option<bool>) -> u8 {
    match flag {
        None => UNKNOWN,
        Some(false) => QUIET,
        Some(true) => ACTIVE,
    }
}

/// Anything but the two answers is a value that this version does not know, and is
/// read as no answer.
pub open spec fn flag_of(code: int) -> Option<bool> {
    if code == QUIET {
        Some(false)
    } else if code == ACTIVE {
        Some(true)
    } else {
        None
    }
}

pub fn flag_to_code(flag: Option<bool>) -> (code: u8)
    ensures
        code == code_of(flag),
{
    match flag {
        None => UNKNOWN,
        Some(false) => QUIET,
        Some(true) => ACTIVE,
    }
}

pub fn code_to_flag(code: u8) -> (flag: Option<bool>)
    ensures
        flag == flag_of(code as int),
{
    if code == QUIET {
        Some(false)
    } else if code == ACTIVE {
        Some(true)
    } else {
        None
    }
}

/// One window in one byte: the low half is the owner, the high half the speakers.
pub open spec fn slot_of(own_speech: Option<bool>, far_end: Option<bool>) -> u8 {
    (code_of(own_speech) + 16 * code_of(far_end)) as u8
}

/// What the owner's detector answered in each window.
pub open spec fn own_flags(slots: Seq<u8>) -> Seq<Option<bool>> {
    slots.map_values(|slot: u8| flag_of(slot as int % 16))
}

/// What the speakers' detector answered in each window.
pub open spec fn far_flags(slots: Seq<u8>) -> Seq<Option<bool>> {
    slots.map_values(|slot: u8| flag_of(slot as int / 16))
}

/// A number times two to the power of `shift`, rounded down.
pub open spec fn scaled(number: int, shift: int) -> int
    decreases
            if shift < 0 {
                -shift
            } else {
                shift
            },
{
    if shift > 0 {
        scaled(number * 2, shift - 1)
    } else if shift < 0 {
        scaled(number / 2, shift + 1)
    } else {
        number
    }
}

/// The value of a positive finite single-precision number, in millionths, rounded
/// down.
pub open spec fn millionths(bits: u32) -> int {
    let exponent = bits as int / 0x80_0000;
    let fraction = bits as int % 0x80_0000;
    if exponent == 0 {
        scaled(fraction * 1_000_000, -149)
    } else {
        scaled((fraction + 0x80_0000) * 1_000_000, exponent - 150)
    }
}

/// A window length in milliseconds, as the timelines count it: as long as a
/// timeline can say, at most.
pub open spec fn window_length(bits: u32) -> int {
    if millionths(bits) > u64::MAX {
        u64::MAX as int
    } else {
        millionths(bits)
    }
}

proof fn lemma_scaled_grows(number: int, shift: int)
    requires
        number >= 0,
        shift >= 0,
    ensures
        scaled(number, shift) >= number,
    decreases shift,
{
    if shift > 0 {
        lemma_scaled_grows(number * 2, shift - 1);
    }
}

fn window_fixed(bits: u32) -> (length: u64)
    requires
        bits < INFINITE_BITS,
    ensures
        length == window_length(bits),
{
    let exponent: u32 = bits / 0x80_0000;
    let fraction: u32 = bits % 0x80_0000;
    let mut value: u64 = if exponent == 0 {
        fraction as u64 * 1_000_000
    } else {
        (fraction as u64 + 0x80_0000) * 1_000_000
    };
    let mut shift: i32 = if exponent == 0 {
        -149
    } else {
        exponent as i32 - 150
    };
    while shift < 0
        invariant
            shift <= 150,
            millionths(bits) == scaled(value as int, shift as int),
        decreases -shift,
    {
        value = value / 2;
        shift += 1;
    }
    while shift > 0
        invariant
            0 <= shift <= 150,
            millionths(bits) == scaled(value as int, shift as int),
        decreases shift,
    {
        if value > u64::MAX / 2 {
            proof {
                lemma_scaled_grows(value * 2, shift - 1);
            }
            return u64::MAX;
        }
        value = value * 2;
        shift -= 1;
    }
    value
}

/// Why bytes are not a record.
#[derive(Clone, Copy, Debug, PartialEq, Eq, Structural)]
pub enum RecordError {
    /// Too short to be a detector record.
    TooShort,
    /// Not a detector record, or a layout that is not read here.
    NotARecord,
    /// The window length, by its bits, is not a positive finite number.
    WindowLength(u32),
    /// More windows than a recording can have.
    TooManyWindows(u32),
    /// Another number of windows than the record claims.
    WindowsMissing(usize, u32),
}

/// The two timelines in the form they take on disk.
///
/// The window length is a single-precision number of milliseconds, kept by its
/// bits.
#[derive(Debug, Clone)]
pub struct GateRecord {
    window_bits: u32,
    slots: Vec<u8>,
}

/// A record as plain data.
pub struct RecordModel {
    pub window_bits: u32,
    pub slots: Seq<u8>,
}

impl RecordModel {
    /// A record that can be read back once it is written.
    pub open spec fn storable(self) -> bool {
        0 < self.window_bits < INFINITE_BITS && self.slots.len() <= MAX_RECORD_WINDOWS
    }

    /// The bytes that a record is written as.
    pub open spec fn encoded(self) -> Seq<u8> {
        magic() + le32(self.window_bits as nat) + le32(self.slots.len()) + self.slots
    }
}

/// What bytes say, or why they are no record.
pub open spec fn decoded(bytes: Seq<u8>) -> Result<RecordModel, RecordError> {
    if bytes.len() < HEADER_LEN {
        Err(RecordError::TooShort)
    } else if bytes.take(8) != magic() {
        Err(RecordError::NotARecord)
    } else {
        let window_bits = from_le32(bytes.subrange(8, 12)) as u32;
        let count = from_le32(bytes.subrange(12, 16)) as u32;
        let slots = bytes.skip(16);
        if window_bits == 0 || window_bits >= INFINITE_BITS {
            Err(RecordError::WindowLength(window_bits))
        } else if count > MAX_RECORD_WINDOWS {
            Err(RecordError::TooManyWindows(count))
        } else if slots.len() != count {
            Err(RecordError::WindowsMissing(slots.len() as usize, count))
        } else {
            Ok(RecordModel { window_bits, slots })
        }
    }
}

impl View for GateRecord {
    type V = RecordModel;

    closed spec fn view(&self) -> RecordModel {
        RecordModel { window_bits: self.window_bits, slots: self.slots@ }
    }
}

impl GateRecord {
    pub fn new(window_bits: u32) -> (record: GateRecord)
        ensures
            record@ == (RecordModel { window_bits, slots: Seq::empty() }),
    {
        let record = GateRecord { window_bits, slots: Vec::new() };
        assert(record.slots@ =~= Seq::<u8>::empty());
        record
    }

    /// Write down what this window held, for both detectors.
    pub fn observe(&mut self, own_speech: Option<bool>, far_end: Option<bool>)
        ensures
            final(self)@ == (RecordModel {
                slots: old(self)@.slots.push(slot_of(own_speech, far_end)),
                ..old(self)@
            }),
    {
        self.slots.push(flag_to_code(own_speech) + 16 * flag_to_code(far_end));
    }

    pub fn windows(&self) -> (windows: usize)
        ensures
            windows == self@.slots.len(),
    {
        self.slots.len()
    }

    /// Whether the detector answered any window at all.
    pub fn detector_answered(&self) -> (answered: bool)
        ensures
            answered == exists|i: int|
                0 <= i < self@.slots.len() && (#[trigger] self@.slots[i]) as int % 16 != UNKNOWN,
    {
        let mut index: usize = 0;
        while index < self.slots.len()
            invariant
                index <= self.slots@.len(),
                forall|i: int| 0 <= i < index ==> (#[trigger] self.slots@[i]) as int % 16 == UNKNOWN,
            decreases self.slots@.len() - index,
        {
            if self.slots[index] % 16 != UNKNOWN {
                assert(self@.slots[index as int] as int % 16 != UNKNOWN);
                return true;
            }
            index += 1;
        }
        false
    }

    pub fn encode(&self) -> (bytes: Vec<u8>)
        requires
            self@.slots.len() <= u32::MAX,
        ensures
            bytes@ == self@.encoded(),
    {
        let mut bytes = magic_bytes();
        push_le32(&mut bytes, self.window_bits);
        push_le32(&mut bytes, self.slots.len() as u32);
        push_bytes(&mut bytes, self.slots.as_slice());
        bytes
    }

    pub fn decode(bytes: &[u8]) -> (record: Result<GateRecord, RecordError>)
        ensures
            match record {
                Ok(read) => decoded(bytes@) == Ok::<RecordModel, RecordError>(read@),
                Err(error) => decoded(bytes@) == Err::<RecordModel, RecordError>(error),
            },
    {
        if bytes.len() < HEADER_LEN {
            return Err(RecordError::TooShort);
        }
        let start = magic_bytes();
        if !starts_with_bytes(bytes, start.as_slice()) {
            return Err(RecordError::NotARecord);
        }
        let window_bits: u32 = read_le32(bytes, 8);
        if window_bits == 0 || window_bits >= INFINITE_BITS {
            return Err(RecordError::WindowLength(window_bits));
        }
        let count: u32 = read_le32(bytes, 12);
        if count > MAX_RECORD_WINDOWS {
            return Err(RecordError::TooManyWindows(count));
        }
        let held: usize = bytes.len() - HEADER_LEN;
        if held as u64 != count as u64 {
            return Err(RecordError::WindowsMissing(held, count));
        }
        Ok(GateRecord { window_bits, slots: bytes_from(bytes, HEADER_LEN) })
    }

    /// The two timelines this record stands for: the owner, then the speakers.
    pub fn timelines(&self) -> (lines: (WindowTimeline, WindowTimeline))
        requires
            self@.window_bits < INFINITE_BITS,
        ensures
            lines.0.wf(),
            lines.1.wf(),
            lines.0.slot() == lines.1.slot(),
            lines.0.slot() == if window_length(self@.window_bits) < 1_000_000 {
                1_000_000
            } else {
                window_length(self@.window_bits)
            },
            lines.0.flags() == own_flags(self@.slots),
            lines.1.flags() == far_flags(self@.slots),
    {
        let mut own: Vec<Option<bool>> = Vec::new();
        let mut far: Vec<Option<bool>> = Vec::new();
        let mut index: usize = 0;
        while index < self.slots.len()
            invariant
                index <= self.slots@.len(),
                own@ =~= own_flags(self.slots@.take(index as int)),
                far@ =~= far_flags(self.slots@.take(index as int)),
            decreases self.slots@.len() - index,
        {
            let slot: u8 = self.slots[index];
            own.push(code_to_flag(slot % 16));
            far.push(code_to_flag(slot / 16));
            index += 1;
        }
        assert(self.slots@.take(self.slots@.len() as int) =~= self.slots@);
        let length: u64 = window_fixed(self.window_bits);
        (WindowTimeline::from_slots(length, own), WindowTimeline::from_slots(length, far))
    }
}

/// What a finished recording has to write: the bytes, the name to write them under
/// and the name to publish them under.
#[derive(Debug, Clone)]
pub struct RecordToWrite {
    pub partial: String,
    pub path: String,
    pub bytes: Vec<u8>,
}

/// The record being built while a recording runs.
pub struct GateRecorder {
    record: GateRecord,
    /// `None` until the recording has a folder, and it may never get one.
    folder: Option<String>,
}

impl GateRecorder {
    pub closed spec fn held(&self) -> RecordModel {
        self.record@
    }

    /// The meeting's folder, once the recording has one.
    pub closed spec fn place(&self) -> Option<Seq<char>> {
        match self.folder {
            Some(folder) => Some(folder@),
            None => None,
        }
    }

    pub fn new(window_bits: u32) -> (recorder: GateRecorder)
        ensures
            recorder.held() == (RecordModel { window_bits, slots: Seq::empty() }),
            recorder.place() is None,
    {
        GateRecorder { record: GateRecord::new(window_bits), folder: None }
    }

    /// Point the record at a meeting folder. Without this it is kept in memory and
    /// thrown away.
    pub fn open_in(&mut self, meeting_folder: &str)
        ensures
            final(self).held() == old(self).held(),
            final(self).place() == Some(meeting_folder@),
    {
        self.folder = Some(meeting_folder.to_owned());
    }

    pub fn observe(&mut self, own_speech: Option<bool>, far_end: Option<bool>)
        ensures
            final(self).held() == (RecordModel {
                slots: old(self).held().slots.push(slot_of(own_speech, far_end)),
                ..old(self).held()
            }),
            final(self).place() == old(self).place(),
    {
        self.record.observe(own_speech, far_end);
    }

    /// What there is to write, if there is a record worth writing: a recording with
    /// a folder, and at least one window that the detector answered. It is handed
    /// out once. A protected archive that is locked gets none: nothing could seal it, and it
    /// is not written in the clear.
    pub fn finish(&mut self, protected: bool, unlocked: bool) -> (work: Option<RecordToWrite>)
        requires
            old(self).held().slots.len() <= u32::MAX,
        ensures
            final(self).held() == old(self).held(),
            final(self).place() is None,
            match work {
                Some(write) => {
                    &&& protected ==> unlocked
                    &&& old(self).place() matches Some(folder) && {
                        let working = inside(folder, WORKING_DIR@);
                        write.path@ == inside(working, RECORD_NAME@) && write.partial@ == inside(
                            working,
                            PARTIAL_NAME@,
                        )
                    }
                    &&& exists|i: int|
                        0 <= i < old(self).held().slots.len() && (
                        #[trigger] old(self).held().slots[i]) as int % 16 != UNKNOWN
                    &&& write.bytes@ == old(self).held().encoded()
                },
                None => old(self).place() is None || (protected && !unlocked) || forall|i: int|
                    0 <= i < old(self).held().slots.len() ==> (
                    #[trigger] old(self).held().slots[i]) as int % 16 == UNKNOWN,
            },
    {
        let taken = self.folder.take();
        match taken {
            Some(folder) => {
                if !self.record.detector_answered() || (protected && !unlocked) {
                    return None;
                }
                let working = working_dir(folder.as_str());
                let path = join(working.as_str(), RECORD_NAME);
                let partial = join(working.as_str(), PARTIAL_NAME);
                let bytes = self.record.encode();
                Some(RecordToWrite { partial, path, bytes })
            },
            None => None,
        }
    }
}

/// The timelines that the stored bytes of a recording stand for, if it stored any
/// and they can be read. Without them there is no second opinion.
pub fn read_timelines(stored: Option<&Vec<u8>>) -> (lines: Option<(WindowTimeline, WindowTimeline)>)
    ensures
        match lines {
            Some((own, far)) => {
                &&& stored matches Some(bytes) && (decoded(bytes@) matches Ok(record)
                    && own.flags() == own_flags(record.slots) && far.flags() == far_flags(
                    record.slots,
                ) && own.slot() == if window_length(record.window_bits) < 1_000_000 {
                    1_000_000
                } else {
                    window_length(record.window_bits)
                })
                &&& own.wf()
                &&& far.wf()
                &&& far.slot() == own.slot()
            },
            None => match stored {
                Some(bytes) => decoded(bytes@) is Err,
                None => true,
            },
        },
{
    match stored {
        Some(bytes) => match GateRecord::decode(bytes.as_slice()) {
            Ok(record) => Some(record.timelines()),
            Err(_) => None,
        },
        None => None,
    }
}

/// A record reads back as what was written.
pub proof fn record_reads_back(record: RecordModel)
    requires
        record.storable(),
    ensures
        decoded(record.encoded()) == Ok::<RecordModel, RecordError>(record),
{
    let bytes = record.encoded();
    lemma_le32_reads_back(record.window_bits);
    lemma_le32_reads_back(record.slots.len() as u32);
    assert(bytes.take(8) =~= magic());
    assert(bytes.subrange(8, 12) =~= le32(record.window_bits as nat));
    assert(bytes.subrange(12, 16) =~= le32(record.slots.len()));
    assert(bytes.skip(16) =~= record.slots);
}

/// A window that was written down answers as it did when it was observed.
pub proof fn window_answers_as_observed(
    slots: Seq<u8>,
    own_speech: Option<bool>,
    far_end: Option<bool>,
)
    ensures
        own_flags(slots.push(slot_of(own_speech, far_end))) == own_flags(slots).push(own_speech),
        far_flags(slots.push(slot_of(own_speech, far_end))) == far_flags(slots).push(far_end),
{
    let after = slots.push(slot_of(own_speech, far_end));
    assert(own_flags(after) =~= own_flags(slots).push(own_speech));
    assert(far_flags(after) =~= far_flags(slots).push(far_end));
}

/// A record that was cut short is refused rather than half believed.
pub proof fn truncated_record_is_refused(record: RecordModel, kept: int)
    requires
        record.storable(),
        0 <= kept < record.encoded().len(),
    ensures
        decoded(record.encoded().take(kept)) is Err,
{
    let bytes = record.encoded();
    let short = bytes.take(kept);
    lemma_le32_reads_back(record.window_bits);
    lemma_le32_reads_back(record.slots.len() as u32);
    if kept >= HEADER_LEN {
        assert(short.take(8) =~= magic());
        assert(short.subrange(8, 12) =~= le32(record.window_bits as nat));
        assert(short.subrange(12, 16) =~= le32(record.slots.len()));
    }
}

/// One byte holds both answers, the owner's in its low half and the speakers' in its high half:
/// nothing for no answer, one for silence and two for speech. Whatever else a half holds is read
/// as no answer.
pub proof fn one_byte_holds_both_answers(own_speech: Option<bool>, far_end: Option<bool>, code: int)
    ensures
        ({
            let low = slot_of(own_speech, far_end) as int % 16;
            let high = slot_of(own_speech, far_end) as int / 16;
            &&& low == 0 <==> own_speech is None
            &&& low == 1 <==> own_speech == Some(false)
            &&& low == 2 <==> own_speech == Some(true)
            &&& high == 0 <==> far_end is None
            &&& high == 1 <==> far_end == Some(false)
            &&& high == 2 <==> far_end == Some(true)
        }),
        code != 1 && code != 2 ==> flag_of(code) is None,
{
}

/// Bytes are a record exactly when they begin with the mark and the version, give a window
/// length that is a positive finite number, and claim as many windows as they hold and no more
/// than nine days have.
pub proof fn only_whole_records_are_read(bytes: Seq<u8>)
    ensures
        bytes.len() < 16 <==> decoded(bytes) == Err::<RecordModel, RecordError>(
            RecordError::TooShort,
        ),
        decoded(bytes) is Ok <==> {
            &&& bytes.len() >= 16
            &&& bytes.take(8) == seq![84u8, 75u8, 71u8, 65u8, 84u8, 69u8, 10u8, 1u8]
            &&& 0 < from_le32(bytes.subrange(8, 12)) < 0x7f80_0000
            &&& from_le32(bytes.subrange(12, 16)) <= 16_777_216
            &&& bytes.len() == 16 + from_le32(bytes.subrange(12, 16))
        },
        decoded(bytes) matches Ok(record) ==> record.slots == bytes.skip(16) && record.window_bits
            == from_le32(bytes.subrange(8, 12)),
{
    if bytes.len() >= 16 {
        let length = bytes.subrange(8, 12);
        let count = bytes.subrange(12, 16);
        assert(from_le32(length) <= u32::MAX);
        assert(from_le32(count) <= u32::MAX);
        assert(bytes.skip(16).len() == bytes.len() - 16);
    }
}

proof fn lemma_shift_doubles(number: int, shift: int)
    requires
        number >= 0,
    ensures
        shift >= 0 ==> scaled(number, shift + 1) == 2 * scaled(number, shift),
        shift < 0 ==> scaled(number, shift) == scaled(number, shift + 1) / 2,
    decreases
            if shift < 0 {
                -shift
            } else {
                shift
            },
{
    reveal_with_fuel(scaled, 3);
    if shift > 0 {
        lemma_shift_doubles(number * 2, shift - 1);
    } else if shift < -1 {
        lemma_shift_doubles(number / 2, shift + 1);
    }
}

/// A window length is the number that its bits stand for: one more in the exponent doubles it,
/// as far as millionths can say, and with the exponent of whole numbers the fraction counts in
/// full.
pub proof fn window_length_is_its_number(bits: u32)
    requires
        0x80_0000 <= bits < 0x7f00_0000,
    ensures
        2 * millionths(bits) <= millionths((bits + 0x80_0000) as u32) <= 2 * millionths(bits) + 1,
        150 * 0x80_0000 <= bits < 151 * 0x80_0000 ==> millionths(bits) == (bits - 150 * 0x80_0000
            + 0x80_0000) * 1_000_000,
        window_length(bits) <= millionths(bits),
        millionths(bits) <= u64::MAX ==> window_length(bits) == millionths(bits),
{
    let exponent = bits as int / 0x80_0000;
    let fraction = bits as int % 0x80_0000;
    let more = (bits + 0x80_0000) as u32;
    assert(more as int / 0x80_0000 == exponent + 1);
    assert(more as int % 0x80_0000 == fraction);
    let number = (fraction + 0x80_0000) * 1_000_000;
    lemma_shift_doubles(number, exponent - 150);
    assert(scaled(number, 0) == number);
}

} // verus!
