//! Which streams a recording opens, and what it makes of how they open and end.

use crate::recording_state::{AudioError, DeviceType};
use crate::text::joined;
use vstd::prelude::*;

verus! {

/// The systems that capture differs on.
#[derive(Clone, Copy, Debug, PartialEq, Eq, Structural)]
pub enum Platform {
    MacOs,
    Windows,
    Other,
}

/// How system audio can be captured.
#[derive(Clone, Copy, Debug, PartialEq, Eq, Structural)]
pub enum AudioCaptureBackend {
    ScreenCaptureKit,
    CoreAudio,
}

/// How a stream is opened.
#[derive(Clone, Copy, Debug, PartialEq, Eq, Structural)]
pub enum StreamPlan {
    /// Tapping the output directly.
    CoreAudio,
    /// As a voice call opens it, already without echo; the ordinary way if that fails.
    CommunicationsFirst,
    /// The ordinary way.
    Ordinary,
    /// The ordinary way, with a second stream that only says when the owner speaks.
    OrdinaryWithDetector,
}

/// The system channel stays raw: it is the other person's voice. Of the microphone,
/// Windows can take the echo out itself; the detector wins where both are asked for,
/// because it needs the ordinary microphone to be recorded.
pub open spec fn plan_of(
    platform: Platform,
    device: DeviceType,
    backend: AudioCaptureBackend,
    system_echo_cancellation: bool,
    own_speech_detector: bool,
) -> StreamPlan {
    if platform is MacOs && device is System && backend is CoreAudio {
        StreamPlan::CoreAudio
    } else if platform is Windows && device is Microphone && own_speech_detector {
        StreamPlan::OrdinaryWithDetector
    } else if platform is Windows && device is Microphone && system_echo_cancellation {
        StreamPlan::CommunicationsFirst
    } else {
        StreamPlan::Ordinary
    }
}

/// How a stream is opened, by the owner's wishes.
pub fn stream_plan(
    platform: Platform,
    device: DeviceType,
    backend: AudioCaptureBackend,
    system_echo_cancellation: bool,
    own_speech_detector: bool,
) -> (plan: StreamPlan)
    ensures
        plan == plan_of(
            platform,
            device,
            backend,
            system_echo_cancellation,
            own_speech_detector,
        ),
{
    match (platform, device) {
        (Platform::MacOs, DeviceType::System) => match backend {
            AudioCaptureBackend::CoreAudio => StreamPlan::CoreAudio,
            AudioCaptureBackend::ScreenCaptureKit => StreamPlan::Ordinary,
        },
        (Platform::Windows, DeviceType::Microphone) => if own_speech_detector {
            StreamPlan::OrdinaryWithDetector
        } else if system_echo_cancellation {
            StreamPlan::CommunicationsFirst
        } else {
            StreamPlan::Ordinary
        },
        _ => StreamPlan::Ordinary,
    }
}

/// No recorded stream is ever cleaned of echo but the microphone's, and never when the
/// detector is asked for.
pub proof fn system_channel_stays_raw(
    platform: Platform,
    device: DeviceType,
    backend: AudioCaptureBackend,
    system_echo_cancellation: bool,
    own_speech_detector: bool,
)
    ensures
        plan_of(platform, device, backend, system_echo_cancellation, own_speech_detector)
            is CommunicationsFirst ==> device is Microphone && !own_speech_detector
            && system_echo_cancellation,
{
}

/// The forms that a device hands samples over in.
#[derive(Clone, Copy, Debug, PartialEq, Eq, Structural)]
pub enum SampleFormat {
    F32,
    I16,
    I32,
    I8,
    Other,
}

/// The largest sample of a form, which is full scale; nothing for a form that is not
/// read. Floating-point samples are already scaled.
pub fn build_stream(format: SampleFormat, name: &str) -> (full_scale: Result<u32, String>)
    ensures
        match full_scale {
            Ok(scale) => scale == match format {
                SampleFormat::F32 => 1,
                SampleFormat::I16 => 0x7fffu32,
                SampleFormat::I32 => 0x7fff_ffffu32,
                SampleFormat::I8 => 0x7fu32,
                SampleFormat::Other => 0,
            } && !(format is Other),
            Err(reason) => format is Other && reason@ == "Unsupported sample format: "@ + name@,
        },
{
    match format {
        SampleFormat::F32 => Ok(1),
        SampleFormat::I16 => Ok(0x7fff),
        SampleFormat::I32 => Ok(0x7fff_ffff),
        SampleFormat::I8 => Ok(0x7f),
        SampleFormat::Other => Err(joined("Unsupported sample format: ", name)),
    }
}

/// How many samples of a tapped stream are handed on at once.
pub const FRAMES_PER_CHUNK: usize = 1024;

/// How long a tapped stream may be silent before it counts as dead, in seconds.
pub const TAP_SILENCE_SECS: u64 = 5;

/// What a tapped stream gave.
#[derive(Debug)]
pub enum TapEvent<T> {
    /// A sample, and the rate that the stream has now.
    Sample(T, u32),
    /// The stream ended.
    End,
    /// Nothing came for too long.
    Silent,
}

/// What is to be done with it.
#[derive(Debug)]
pub enum TapStep<T> {
    /// Wait for the next sample.
    Next,
    /// Hand on a block and wait for the next sample.
    Block(Vec<T>),
    /// Hand on what is left, then report the error if there is one, and stop.
    Stop(Vec<T>, Option<AudioError>),
    /// Report the error, then hand on what is left, and stop.
    Fail(AudioError, Vec<T>),
}

/// A tapped stream, collected into blocks.
pub struct TapBuffer<T> {
    pub sample_rate: u32,
    pub buffer: Vec<T>,
}

impl<T> TapBuffer<T> {
    pub open spec fn wf(&self) -> bool {
        self.buffer@.len() < FRAMES_PER_CHUNK
    }

    pub fn new(sample_rate: u32) -> (tap: TapBuffer<T>)
        ensures
            tap.wf(),
            tap.sample_rate == sample_rate,
            tap.buffer@.len() == 0,
    {
        TapBuffer { sample_rate, buffer: Vec::new() }
    }

    fn take_all(&mut self) -> (all: Vec<T>)
        ensures
            all@ == old(self).buffer@,
            final(self).buffer@.len() == 0,
            final(self).sample_rate == old(self).sample_rate,
    {
        let mut all: Vec<T> = Vec::new();
        all.append(&mut self.buffer);
        assert(all@ =~= old(self).buffer@);
        all
    }

    /// Takes what the stream gave. A stream that falls silent, changes its rate or ends
    /// while the recording runs is an error; nothing that came before it is lost.
    pub fn step(&mut self, event: TapEvent<T>, recording: bool) -> (step: TapStep<T>)
        requires
            old(self).wf(),
        ensures
            final(self).wf(),
            final(self).sample_rate == old(self).sample_rate,
            match event {
                TapEvent::Sample(sample, rate) => if rate != old(self).sample_rate {
                    &&& final(self).buffer@.len() == 0
                    &&& step matches TapStep::Fail(error, rest) && rest@ == old(self).buffer@
                        && error == AudioError::SampleRateUnsupported
                } else if old(self).buffer@.len() + 1 == FRAMES_PER_CHUNK {
                    &&& final(self).buffer@.len() == 0
                    &&& step matches TapStep::Block(block) && block@ == old(self).buffer@.push(
                        sample,
                    )
                } else {
                    &&& final(self).buffer@ == old(self).buffer@.push(sample)
                    &&& step is Next
                },
                TapEvent::End => {
                    &&& final(self).buffer@.len() == 0
                    &&& step matches TapStep::Stop(rest, error) && rest@ == old(self).buffer@
                        && error == if recording {
                        Some(AudioError::ChannelClosed)
                    } else {
                        None
                    }
                },
                TapEvent::Silent => {
                    &&& final(self).buffer@.len() == 0
                    &&& step matches TapStep::Fail(error, rest) && rest@ == old(self).buffer@
                        && error == AudioError::ChannelClosed
                },
            },
    {
        match event {
            TapEvent::Sample(sample, rate) => {
                if rate != self.sample_rate {
                    let rest = self.take_all();
                    return TapStep::Fail(AudioError::SampleRateUnsupported, rest);
                }
                self.buffer.push(sample);
                if self.buffer.len() >= FRAMES_PER_CHUNK {
                    TapStep::Block(self.take_all())
                } else {
                    TapStep::Next
                }
            },
            TapEvent::End => {
                let rest = self.take_all();
                if recording {
                    TapStep::Stop(rest, Some(AudioError::ChannelClosed))
                } else {
                    TapStep::Stop(rest, None)
                }
            },
            TapEvent::Silent => {
                let rest = self.take_all();
                TapStep::Fail(AudioError::ChannelClosed, rest)
            },
        }
    }
}

/// Which streams of a recording are open.
#[derive(Clone, Copy, Debug, PartialEq, Eq, Structural)]
pub struct AudioStreamManager {
    pub microphone_stream: bool,
    pub system_stream: bool,
}

impl AudioStreamManager {
    pub fn new() -> (manager: AudioStreamManager)
        ensures
            !manager.microphone_stream,
            !manager.system_stream,
    {
        AudioStreamManager { microphone_stream: false, system_stream: false }
    }

    /// The microphone was tried, if there is one. A recording fails with it.
    pub fn microphone_opened(&mut self, outcome: Option<Result<(), String>>) -> (went: Result<
        (),
        String,
    >)
        ensures
            final(self).system_stream == old(self).system_stream,
            match outcome {
                Some(Ok(_)) => went is Ok && final(self).microphone_stream,
                Some(Err(error)) => went == Err::<(), String>(error)
                    && final(self).microphone_stream == old(self).microphone_stream,
                None => went is Ok && final(self).microphone_stream == old(self).microphone_stream,
            },
    {
        match outcome {
            Some(Ok(_)) => {
                self.microphone_stream = true;
                Ok(())
            },
            Some(Err(error)) => Err(error),
            None => Ok(()),
        }
    }

    /// System audio was tried, if there is any. A recording goes on without it, but not
    /// without any stream.
    pub fn system_opened(&mut self, outcome: Option<Result<(), String>>) -> (went: Result<
        (),
        String,
    >)
        ensures
            final(self).microphone_stream == old(self).microphone_stream,
            final(self).system_stream == (old(self).system_stream || (outcome matches Some(result)
                && result is Ok)),
            match went {
                Ok(_) => final(self).microphone_stream || final(self).system_stream,
                Err(reason) => {
                    &&& !final(self).microphone_stream
                    &&& !final(self).system_stream
                    &&& reason@ == "No audio streams could be created"@
                },
            },
    {
        match outcome {
            Some(Ok(_)) => {
                self.system_stream = true;
            },
            _ => {},
        }
        if !self.microphone_stream && !self.system_stream {
            Err("No audio streams could be created".to_owned())
        } else {
            Ok(())
        }
    }

    /// Both streams are stopped, whatever stopping them came to; every error is kept.
    pub fn stop_streams(
        &mut self,
        microphone: Result<(), String>,
        system: Result<(), String>,
    ) -> (errors: Vec<String>)
        ensures
            !final(self).microphone_stream,
            !final(self).system_stream,
            ({
                let first = if old(self).microphone_stream && microphone is Err {
                    seq![microphone->Err_0]
                } else {
                    Seq::<String>::empty()
                };
                let second = if old(self).system_stream && system is Err {
                    seq![system->Err_0]
                } else {
                    Seq::<String>::empty()
                };
                errors@ == first + second
            }),
    {
        let mut errors: Vec<String> = Vec::new();
        if self.microphone_stream {
            match microphone {
                Err(error) => {
                    errors.push(error);
                },
                Ok(_) => {},
            }
        }
        if self.system_stream {
            match system {
                Err(error) => {
                    errors.push(error);
                },
                Ok(_) => {},
            }
        }
        self.microphone_stream = false;
        self.system_stream = false;
        proof {
            let first = if old(self).microphone_stream && microphone is Err {
                seq![microphone->Err_0]
            } else {
                Seq::<String>::empty()
            };
            let second = if old(self).system_stream && system is Err {
                seq![system->Err_0]
            } else {
                Seq::<String>::empty()
            };
            assert(errors@ =~= first + second);
        }
        errors
    }

    /// Get stream count.
    pub fn active_stream_count(&self) -> (count: usize)
        ensures
            count == (if self.microphone_stream {
                1int
            } else {
                0
            }) + (if self.system_stream {
                1int
            } else {
                0
            }),
    {
        let mut count: usize = 0;
        if self.microphone_stream {
            count += 1;
        }
        if self.system_stream {
            count += 1;
        }
        count
    }

    /// Check if any streams are active.
    pub fn has_active_streams(&self) -> (active: bool)
        ensures
            active == (self.microphone_stream || self.system_stream),
    {
        self.microphone_stream || self.system_stream
    }
}

/// The system's own tap is used for system audio on macOS where it is chosen, and nowhere else;
/// the microphone is opened as a voice call would on Windows alone, and there the detector of
/// the owner's speech comes before it. Everything else is opened as any stream.
pub proof fn streams_are_opened_as_wished(
    platform: Platform,
    device: DeviceType,
    backend: AudioCaptureBackend,
    echo: bool,
    detector: bool,
)
    ensures
        ({
            let plan = plan_of(platform, device, backend, echo, detector);
            let call = platform is Windows && device is Microphone;
            &&& plan is CoreAudio <==> platform is MacOs && device is System && backend is CoreAudio
            &&& plan is OrdinaryWithDetector <==> call && detector
            &&& plan is CommunicationsFirst <==> call && echo && !detector
            &&& !call && !(platform is MacOs) ==> plan is Ordinary
            &&& call && !echo && !detector ==> plan is Ordinary
            &&& platform is MacOs && device is Microphone ==> plan is Ordinary
        }),
{
}

} // verus!
