//! The recording side of Talkkeeper as verified rules.
//!
//! Capture, encoding, storage and recognition are done elsewhere. What is here
//! decides: how two captured streams are lined up, what a recording folder
//! holds and what may be done with it, how a recording starts and stops, which
//! part of a microphone track is the owner's own speech.

pub mod archive_encryption;
pub mod archive_pass;
pub mod bytes;
pub mod capture;
pub mod checkpoint_recovery;
pub mod common;
pub mod corrections;
pub mod digest;
pub mod echo_offline;
pub mod encrypted_audio;
pub mod external_stt;
pub mod ffmpeg;
pub mod json;
pub mod mixer;
pub mod moments;
pub mod orphan_recordings;
pub mod own_speech;
pub mod own_speech_record;
pub mod paths;
pub mod pipeline;
pub mod pipeline_run;
pub mod recording_commands;
pub mod recording_lifecycle;
pub mod recording_preferences;
pub mod recording_protocol;
pub mod recording_saver;
pub mod recording_state;
pub mod recovery_run;
pub mod retranscription;
pub mod retranscription_run;
pub mod sorting;
pub mod spans;
pub mod splitting;
pub mod stream;
pub mod streaming_encoder;
pub mod text;
pub mod transcript_journal;
pub mod vad;
pub mod wasapi_comms;
pub mod working_track;
