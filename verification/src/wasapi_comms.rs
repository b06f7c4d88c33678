//! The microphone as a voice call opens it: what the system chose to hand over.

use vstd::prelude::*;

verus! {

/// The tag of floating-point samples.
pub const FORMAT_FLOAT: u16 = 0x0003;

/// The tag that says that the real one is in the sub-format.
pub const FORMAT_EXTENSIBLE: u16 = 0xFFFE;

/// How long to sleep between polls, in milliseconds.
pub const POLL_INTERVAL_MS: u64 = 10;

/// How a sample is read.
#[derive(Clone, Copy, Debug, PartialEq, Eq, Structural)]
pub enum SampleKind {
    Float32,
    Int16,
    /// Not known: read as silence.
    Silence,
}

/// What the system chose to hand over, so that the samples can be read back.
#[derive(Clone, Copy, Debug, PartialEq, Eq, Structural)]
pub struct Format {
    pub sample_rate: u32,
    pub channels: usize,
    pub bits: u16,
    pub float: bool,
}

impl Format {
    /// The format that a description stands for. A description without channels counts
    /// as one channel; an extensible one has its tag in the sub-format.
    pub fn read(tag: u16, sub_format: u32, sample_rate: u32, channels: u16, bits: u16) -> (format:
        Format)
        ensures
            format.sample_rate == sample_rate,
            format.channels == if channels == 0 {
                1
            } else {
                channels as int
            },
            format.bits == bits,
            format.float == if tag == FORMAT_EXTENSIBLE {
                sub_format % 65536 == FORMAT_FLOAT
            } else {
                tag == FORMAT_FLOAT
            },
    {
        let used: u32 = if tag == FORMAT_EXTENSIBLE {
            sub_format % 65536
        } else {
            tag as u32
        };
        Format {
            sample_rate,
            channels: if channels == 0 {
                1
            } else {
                channels as usize
            },
            bits,
            float: used == FORMAT_FLOAT as u32,
        }
    }

    pub open spec fn kind(self) -> SampleKind {
        if self.float && self.bits == 32 {
            SampleKind::Float32
        } else if self.bits == 16 {
            SampleKind::Int16
        } else {
            SampleKind::Silence
        }
    }

    pub fn sample_kind(&self) -> (kind: SampleKind)
        ensures
            kind == self.kind(),
    {
        if self.float && self.bits == 32 {
            SampleKind::Float32
        } else if self.bits == 16 {
            SampleKind::Int16
        } else {
            SampleKind::Silence
        }
    }

    /// Where the samples of a frame begin and end, counted in samples: one for each
    /// channel, and every one of them counts in the mix.
    pub fn frame_range(&self, frame: usize) -> (range: (usize, usize))
        requires
            (frame + 1) * self.channels <= usize::MAX,
        ensures
            range.0 == frame * self.channels,
            range.1 == (frame + 1) * self.channels,
    {
        assert(0 <= frame * self.channels && frame * self.channels + self.channels == (frame + 1)
            * self.channels) by (nonlinear_arith)
            requires
                frame >= 0,
                self.channels >= 0,
        ;
        let first: usize = frame * self.channels;
        (first, first + self.channels)
    }
}

/// Samples of 32 bits are read only where they are floating-point ones, and those of 16 bits in
/// either case; samples of any other size are silence.
pub proof fn unknown_samples_are_silence(format: Format)
    ensures
        format.kind() is Float32 <==> format.bits == 32 && format.float,
        format.kind() is Int16 <==> format.bits == 16,
        format.bits != 16 && !(format.bits == 32 && format.float) ==> format.kind() is Silence,
{
}

} // verus!
