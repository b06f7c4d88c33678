//! What a capture thread has to know about the recording it belongs to.

use vstd::prelude::*;

verus! {

/// Which stream a block of audio belongs to.
#[derive(Clone, Copy, Debug, PartialEq, Eq, Structural)]
pub enum DeviceType {
    Microphone,
    System,
    Mixed,
}

/// What can go wrong with a stream.
#[derive(Clone, Copy, Debug, PartialEq, Eq, Structural)]
pub enum AudioError {
    DeviceDisconnected,
    PermissionDenied,
    ChannelClosed,
    BufferOverflow,
    ProcessingFailed,
    StreamFailed,
    SampleRateUnsupported,
}

/// A block of audio on its way. The clock is in nanoseconds since the recording
/// began, pauses left out.
#[derive(Debug, Clone)]
pub struct AudioChunk<T> {
    pub data: Vec<T>,
    pub sample_rate: u32,
    pub timestamp: u64,
    pub chunk_id: u64,
    pub device_type: DeviceType,
}

/// A block of audio as plain data.
#[verifier::ext_equal]
pub struct ChunkModel<T> {
    pub data: Seq<T>,
    pub sample_rate: u32,
    pub timestamp: u64,
    pub chunk_id: u64,
    pub device_type: DeviceType,
}

impl<T> View for AudioChunk<T> {
    type V = ChunkModel<T>;

    open spec fn view(&self) -> ChunkModel<T> {
        ChunkModel {
            data: self.data@,
            sample_rate: self.sample_rate,
            timestamp: self.timestamp,
            chunk_id: self.chunk_id,
            device_type: self.device_type,
        }
    }
}

/// Blocks of audio as plain data.
pub open spec fn chunks_of<T>(chunks: Seq<AudioChunk<T>>) -> Seq<ChunkModel<T>> {
    chunks.map_values(|chunk: AudioChunk<T>| chunk@)
}

/// Whether the recording runs, and what of it is to be kept.
#[derive(Clone, Copy, Debug, PartialEq, Eq, Structural)]
pub struct RecordingState {
    pub recording: bool,
    pub paused: bool,
    pub microphone_muted: bool,
    pub system_audio_muted: bool,
}

impl RecordingState {
    pub fn new() -> (state: RecordingState)
        ensures
            state == (RecordingState {
                recording: false,
                paused: false,
                microphone_muted: false,
                system_audio_muted: false,
            }),
    {
        RecordingState {
            recording: false,
            paused: false,
            microphone_muted: false,
            system_audio_muted: false,
        }
    }

    pub open spec fn muted(self, device: DeviceType) -> bool {
        match device {
            DeviceType::Microphone => self.microphone_muted,
            DeviceType::System => self.system_audio_muted,
            DeviceType::Mixed => false,
        }
    }

    /// Whether what comes from this source is to be replaced by silence.
    pub fn is_audio_source_muted(&self, device: DeviceType) -> (muted: bool)
        ensures
            muted == self.muted(device),
    {
        match device {
            DeviceType::Microphone => self.microphone_muted,
            DeviceType::System => self.system_audio_muted,
            DeviceType::Mixed => false,
        }
    }
}

/// Muting one source is muting that source: the other is heard or not heard as before, and a
/// mix of both is never silenced.
pub proof fn sources_are_muted_apart(state: RecordingState, wanted: bool)
    ensures
        (RecordingState { microphone_muted: wanted, ..state }).muted(DeviceType::Microphone)
            == wanted,
        (RecordingState { microphone_muted: wanted, ..state }).muted(DeviceType::System)
            == state.muted(DeviceType::System),
        (RecordingState { system_audio_muted: wanted, ..state }).muted(DeviceType::System) == wanted,
        (RecordingState { system_audio_muted: wanted, ..state }).muted(DeviceType::Microphone)
            == state.muted(DeviceType::Microphone),
        !state.muted(DeviceType::Mixed),
{
}

} // verus!
