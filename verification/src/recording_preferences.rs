//! Where recordings are saved, and the owner's wishes for them.

use crate::moments::is_year_and;
use crate::paths::{
    components, components_of, extension, folder_of, inside, is_within, join, parent_of,
    path_extension, same_path, within,
};
use crate::recording_protocol::{inside_any, within_any};
use crate::stream::Platform;
use crate::text::{
    ascii_lower_text, ascii_lowered_text, chars_of, joined, same_text, spelled, text_of, texts,
    trim, trimmed,
};
use vstd::prelude::*;

verus! {

/// The bits of the single-precision number one.
pub const UNITY_GAIN_BITS: u32 = 0x3f80_0000;

/// The bits of one half: the least gain.
pub const LEAST_GAIN_BITS: u32 = 0x3f00_0000;

/// The bits of three: the most gain.
pub const MOST_GAIN_BITS: u32 = 0x4040_0000;

/// Name of the folder that recordings are kept in unless the owner chose another.
pub const RECORDINGS_FOLDER: &'static str = "meetily-recordings";

/// A gain, by the bits of a single-precision number, brought between a half and three.
/// What is not a number stays what it is.
pub open spec fn gain_between(bits: u32) -> u32 {
    if bits as int % 0x8000_0000 > 0x7f80_0000 {
        bits
    } else if bits >= 0x8000_0000 || bits < LEAST_GAIN_BITS {
        LEAST_GAIN_BITS
    } else if bits > MOST_GAIN_BITS {
        MOST_GAIN_BITS
    } else {
        bits
    }
}

pub fn clamp_gain(bits: u32) -> (clamped: u32)
    ensures
        clamped == gain_between(bits),
{
    if bits % 0x8000_0000 > 0x7f80_0000 {
        bits
    } else if bits >= 0x8000_0000 || bits < LEAST_GAIN_BITS {
        LEAST_GAIN_BITS
    } else if bits > MOST_GAIN_BITS {
        MOST_GAIN_BITS
    } else {
        bits
    }
}

/// The owner's wishes for recordings. Gains are single-precision numbers by their bits.
#[derive(Debug, Clone)]
pub struct RecordingPreferences {
    pub save_folder: String,
    pub auto_save: bool,
    pub file_format: String,
    pub preferred_mic_device: Option<String>,
    pub preferred_system_device: Option<String>,
    pub mic_gain: u32,
    pub system_gain: u32,
    pub echo_cancellation: bool,
    pub echo_text_filter: bool,
    pub single_remote_speaker: bool,
    pub system_echo_cancellation: bool,
    pub own_speech_detector: bool,
    /// How system audio is captured, where there is a choice.
    pub system_audio_backend: Option<String>,
}

impl RecordingPreferences {
    /// What holds where the owner chose nothing.
    pub fn default_in(save_folder: String, platform: Platform) -> (preferences:
        RecordingPreferences)
        ensures
            preferences.save_folder == save_folder,
            preferences.auto_save,
            preferences.file_format@ == "mp4"@,
            preferences.preferred_mic_device is None,
            preferences.preferred_system_device is None,
            preferences.mic_gain == UNITY_GAIN_BITS,
            preferences.system_gain == UNITY_GAIN_BITS,
            preferences.echo_cancellation,
            !preferences.echo_text_filter,
            preferences.single_remote_speaker,
            preferences.system_echo_cancellation,
            !preferences.own_speech_detector,
            match preferences.system_audio_backend {
                Some(backend) => platform is MacOs && backend@ == "coreaudio"@,
                None => !(platform is MacOs),
            },
    {
        RecordingPreferences {
            save_folder,
            auto_save: true,
            file_format: "mp4".to_owned(),
            preferred_mic_device: None,
            preferred_system_device: None,
            mic_gain: UNITY_GAIN_BITS,
            system_gain: UNITY_GAIN_BITS,
            echo_cancellation: true,
            echo_text_filter: false,
            single_remote_speaker: true,
            system_echo_cancellation: true,
            own_speech_detector: false,
            system_audio_backend: match platform {
                Platform::MacOs => Some("coreaudio".to_owned()),
                _ => None,
            },
        }
    }
}

/// The wishes that capture reads while it runs.
#[derive(Clone, Copy, Debug, PartialEq, Eq, Structural)]
pub struct RuntimePreferences {
    pub mic_gain_bits: u32,
    pub system_gain_bits: u32,
    pub echo_cancellation: bool,
    pub echo_text_filter: bool,
    pub single_remote_speaker: bool,
    pub system_echo_cancellation: bool,
    pub own_speech_detector: bool,
}

impl RuntimePreferences {
    /// What holds before any preferences were read.
    pub fn new() -> (runtime: RuntimePreferences)
        ensures
            runtime == (RuntimePreferences {
                mic_gain_bits: UNITY_GAIN_BITS,
                system_gain_bits: UNITY_GAIN_BITS,
                echo_cancellation: true,
                echo_text_filter: false,
                single_remote_speaker: true,
                system_echo_cancellation: true,
                own_speech_detector: false,
            }),
    {
        RuntimePreferences {
            mic_gain_bits: UNITY_GAIN_BITS,
            system_gain_bits: UNITY_GAIN_BITS,
            echo_cancellation: true,
            echo_text_filter: false,
            single_remote_speaker: true,
            system_echo_cancellation: true,
            own_speech_detector: false,
        }
    }

    /// Takes over preferences that were loaded or saved.
    pub fn apply(&mut self, preferences: &RecordingPreferences)
        ensures
            *final(self) == (RuntimePreferences {
                mic_gain_bits: gain_between(preferences.mic_gain),
                system_gain_bits: gain_between(preferences.system_gain),
                echo_cancellation: preferences.echo_cancellation,
                echo_text_filter: preferences.echo_text_filter,
                single_remote_speaker: preferences.single_remote_speaker,
                system_echo_cancellation: preferences.system_echo_cancellation,
                own_speech_detector: preferences.own_speech_detector,
            }),
    {
        self.mic_gain_bits = clamp_gain(preferences.mic_gain);
        self.system_gain_bits = clamp_gain(preferences.system_gain);
        self.echo_cancellation = preferences.echo_cancellation;
        self.echo_text_filter = preferences.echo_text_filter;
        self.single_remote_speaker = preferences.single_remote_speaker;
        self.system_echo_cancellation = preferences.system_echo_cancellation;
        self.own_speech_detector = preferences.own_speech_detector;
    }
}

/// Current microphone gain, by its bits.
pub fn mic_gain(runtime: &RuntimePreferences) -> (bits: u32)
    ensures
        bits == gain_between(runtime.mic_gain_bits),
{
    clamp_gain(runtime.mic_gain_bits)
}

/// Current system-audio gain, by its bits.
pub fn system_gain(runtime: &RuntimePreferences) -> (bits: u32)
    ensures
        bits == gain_between(runtime.system_gain_bits),
{
    clamp_gain(runtime.system_gain_bits)
}

/// Whether to remove the system channel's echo from the microphone.
pub fn echo_cancellation(runtime: &RuntimePreferences) -> (enabled: bool)
    ensures
        enabled == runtime.echo_cancellation,
{
    runtime.echo_cancellation
}

/// Whether to let the system cancel the echo.
pub fn system_echo_cancellation(runtime: &RuntimePreferences) -> (enabled: bool)
    ensures
        enabled == runtime.system_echo_cancellation,
{
    runtime.system_echo_cancellation
}

/// Whether to open the microphone a second time, only for whether the owner speaks.
pub fn own_speech_detector(runtime: &RuntimePreferences) -> (enabled: bool)
    ensures
        enabled == runtime.own_speech_detector,
{
    runtime.own_speech_detector
}

/// Whether to drop microphone text that repeats a recent system phrase.
pub fn echo_text_filter(runtime: &RuntimePreferences) -> (enabled: bool)
    ensures
        enabled == runtime.echo_text_filter,
{
    runtime.echo_text_filter
}

/// Whether the whole system channel is one other participant.
pub fn single_remote_speaker(runtime: &RuntimePreferences) -> (enabled: bool)
    ensures
        enabled == runtime.single_remote_speaker,
{
    runtime.single_remote_speaker
}

/// A gain, once it was brought between its bounds, stays there.
pub proof fn clamping_twice_is_clamping_once(bits: u32)
    ensures
        gain_between(gain_between(bits)) == gain_between(bits),
{
}

/// Preferences as they are saved: with gains between their bounds.
pub fn preferences_to_save(preferences: RecordingPreferences) -> (saved: RecordingPreferences)
    ensures
        saved == (RecordingPreferences {
            mic_gain: gain_between(preferences.mic_gain),
            system_gain: gain_between(preferences.system_gain),
            ..preferences
        }),
{
    let mut saved = preferences;
    saved.mic_gain = clamp_gain(saved.mic_gain);
    saved.system_gain = clamp_gain(saved.system_gain);
    saved
}

/// Preferences as they are used: those that were stored and could be read, else the
/// defaults; and never with a folder inside the application itself. Where there is a choice
/// of how system audio is captured, stored ones name the way that is in use. Also says
/// whether the stored ones were corrected.
pub fn loaded_preferences(
    stored: Option<RecordingPreferences>,
    default_folder: String,
    inside_bundle: bool,
    platform: Platform,
    current_backend: &str,
) -> (loaded: (RecordingPreferences, bool))
    ensures
        loaded.1 == (stored is Some && inside_bundle),
        match stored {
            Some(preferences) => {
                &&& loaded.0 == (RecordingPreferences {
                    save_folder: if inside_bundle {
                        default_folder
                    } else {
                        preferences.save_folder
                    },
                    system_audio_backend: loaded.0.system_audio_backend,
                    ..preferences
                })
                &&& if platform is MacOs {
                    loaded.0.system_audio_backend matches Some(backend) && backend@
                        == current_backend@
                } else {
                    loaded.0.system_audio_backend == preferences.system_audio_backend
                }
            },
            None => {
                &&& loaded.0.save_folder == default_folder
                &&& loaded.0.auto_save
                &&& loaded.0.mic_gain == UNITY_GAIN_BITS
                &&& loaded.0.system_gain == UNITY_GAIN_BITS
                &&& loaded.0.file_format@ == "mp4"@
                &&& loaded.0.preferred_mic_device is None
                &&& loaded.0.preferred_system_device is None
                &&& loaded.0.echo_cancellation
                &&& !loaded.0.echo_text_filter
                &&& loaded.0.single_remote_speaker
                &&& loaded.0.system_echo_cancellation
                &&& !loaded.0.own_speech_detector
                &&& match loaded.0.system_audio_backend {
                    Some(backend) => platform is MacOs && backend@ == "coreaudio"@,
                    None => !(platform is MacOs),
                }
            },
        },
{
    match stored {
        Some(preferences) => {
            let mut used = preferences;
            if inside_bundle {
                used.save_folder = default_folder;
            }
            match platform {
                Platform::MacOs => {
                    used.system_audio_backend = Some(current_backend.to_owned());
                },
                _ => {},
            }
            (used, inside_bundle)
        },
        None => (RecordingPreferences::default_in(default_folder, platform), false),
    }
}

/// Where saving preferences stands, which is what the caller is to do next.
#[derive(Clone, Copy, Debug, PartialEq, Eq, Structural)]
pub enum SavingStage {
    /// Make the folder for recordings and see that it can be written to.
    Folder,
    /// Open the store and write the preferences out.
    Serialize,
    /// Put them into the store and write the store to disk.
    Persist,
    /// Put what was stored before back into the store.
    PutBack,
    /// Put the preferences to use.
    Apply,
    Done,
    Failed,
}

/// Preferences on their way into the store.
pub struct PreferencesSave {
    pub preferences: RecordingPreferences,
    pub stage: SavingStage,
    pub error: Option<String>,
}

/// Where saving goes on after a step, which succeeded or not.
pub open spec fn saving_next(stage: SavingStage, done: bool) -> SavingStage {
    match stage {
        SavingStage::Folder => if done {
            SavingStage::Serialize
        } else {
            SavingStage::Failed
        },
        SavingStage::Serialize => if done {
            SavingStage::Persist
        } else {
            SavingStage::Failed
        },
        SavingStage::Persist => if done {
            SavingStage::Apply
        } else {
            SavingStage::PutBack
        },
        SavingStage::PutBack => SavingStage::Failed,
        SavingStage::Apply => SavingStage::Done,
        _ => stage,
    }
}

/// What a failed step is reported as.
pub open spec fn saving_error(stage: SavingStage, reason: Seq<char>) -> Seq<char> {
    match stage {
        SavingStage::Serialize => "Failed to serialize preferences: "@ + reason,
        SavingStage::Persist => "Failed to save store to disk: "@ + reason,
        _ => reason,
    }
}

impl PreferencesSave {
    /// Begins to save, with gains between their bounds.
    pub fn begin(preferences: RecordingPreferences) -> (save: PreferencesSave)
        ensures
            save.preferences == (RecordingPreferences {
                mic_gain: gain_between(preferences.mic_gain),
                system_gain: gain_between(preferences.system_gain),
                ..preferences
            }),
            save.stage == SavingStage::Folder,
            save.error is None,
    {
        PreferencesSave {
            preferences: preferences_to_save(preferences),
            stage: SavingStage::Folder,
            error: None,
        }
    }

    /// Takes what came of a step. The error that is kept is that of the step that failed;
    /// what comes of putting the old value back changes nothing.
    pub fn step(&mut self, outcome: Result<(), String>)
        ensures
            final(self).preferences == old(self).preferences,
            final(self).stage == saving_next(old(self).stage, outcome is Ok),
            match (old(self).stage, outcome) {
                (SavingStage::Folder, Err(reason)) | (SavingStage::Serialize, Err(reason)) | (
                    SavingStage::Persist,
                    Err(reason),
                ) => final(self).error matches Some(said) && said@ == saving_error(
                    old(self).stage,
                    reason@,
                ),
                _ => final(self).error == old(self).error,
            },
    {
        match (self.stage, outcome) {
            (SavingStage::Folder, Ok(_)) => {
                self.stage = SavingStage::Serialize;
            },
            (SavingStage::Folder, Err(reason)) => {
                self.error = Some(reason);
                self.stage = SavingStage::Failed;
            },
            (SavingStage::Serialize, Ok(_)) => {
                self.stage = SavingStage::Persist;
            },
            (SavingStage::Serialize, Err(reason)) => {
                self.error = Some(joined("Failed to serialize preferences: ", reason.as_str()));
                self.stage = SavingStage::Failed;
            },
            (SavingStage::Persist, Ok(_)) => {
                self.stage = SavingStage::Apply;
            },
            (SavingStage::Persist, Err(reason)) => {
                self.error = Some(joined("Failed to save store to disk: ", reason.as_str()));
                self.stage = SavingStage::PutBack;
            },
            (SavingStage::PutBack, _) => {
                self.stage = SavingStage::Failed;
            },
            (SavingStage::Apply, _) => {
                self.stage = SavingStage::Done;
            },
            (SavingStage::Done, _) | (SavingStage::Failed, _) => {},
        }
    }
}

/// Preferences are used only once they are on disk, a folder that cannot be written to is
/// never stored, and after a store that could not be written the old value is put back.
pub proof fn only_saved_preferences_are_used(stage: SavingStage, done: bool)
    ensures
        saving_next(stage, done) is Apply ==> stage is Apply || (stage is Persist && done),
        saving_next(stage, done) is Persist ==> stage is Persist || (stage is Serialize && done),
        saving_next(stage, done) is Serialize ==> stage is Serialize || (stage is Folder && done),
        stage is Persist && !done ==> saving_next(stage, done) is PutBack,
{
}

/// The way of capturing system audio that saved preferences choose, where there is a choice.
pub fn chosen_backend(preferences: &RecordingPreferences, platform: Platform) -> (chosen: Option<
    &String,
>)
    ensures
        match chosen {
            Some(backend) => platform is MacOs && preferences.system_audio_backend == Some(
                *backend,
            ),
            None => !(platform is MacOs) || preferences.system_audio_backend is None,
        },
{
    match platform {
        Platform::MacOs => preferences.system_audio_backend.as_ref(),
        _ => None,
    }
}

/// Where recordings are kept by default: beside the owner's other media if there is such
/// a folder, else beside the documents, else here.
pub open spec fn default_base(
    platform: Platform,
    audio: Option<String>,
    video: Option<String>,
    documents: Option<String>,
) -> Seq<char> {
    let media = match platform {
        Platform::Windows => audio,
        Platform::MacOs => video,
        Platform::Other => None,
    };
    match media {
        Some(folder) => folder@,
        None => match documents {
            Some(folder) => folder@,
            None => "."@,
        },
    }
}

pub fn default_recordings_folder(
    platform: Platform,
    audio: Option<String>,
    video: Option<String>,
    documents: Option<String>,
) -> (folder: String)
    ensures
        folder@ == inside(default_base(platform, audio, video, documents), RECORDINGS_FOLDER@),
{
    let media = match platform {
        Platform::Windows => audio,
        Platform::MacOs => video,
        Platform::Other => None,
    };
    match media {
        Some(base) => join(base.as_str(), RECORDINGS_FOLDER),
        None => match documents {
            Some(base) => join(base.as_str(), RECORDINGS_FOLDER),
            None => join(".", RECORDINGS_FOLDER),
        },
    }
}

/// The owner's folder for music.
///
/// Calls `dirs::audio_dir`. Nothing is claimed of the folder: it rests on the
/// environment. A path that is no text is written with replacement characters.
#[verifier::external_body]
fn audio_dir() -> (folder: Option<String>) {
    dirs::audio_dir().map(|path| path.to_string_lossy().into_owned())
}

/// The owner's folder for films.
///
/// Calls `dirs::video_dir`. Nothing is claimed of the folder: it rests on the
/// environment. A path that is no text is written with replacement characters.
#[verifier::external_body]
fn video_dir() -> (folder: Option<String>) {
    dirs::video_dir().map(|path| path.to_string_lossy().into_owned())
}

/// The owner's folder for documents.
///
/// Calls `dirs::document_dir`. Nothing is claimed of the folder: it rests on the
/// environment. A path that is no text is written with replacement characters.
#[verifier::external_body]
fn document_dir() -> (folder: Option<String>) {
    dirs::document_dir().map(|path| path.to_string_lossy().into_owned())
}

/// Get the default recordings folder of this machine.
pub fn get_default_recordings_folder(platform: Platform) -> (folder: String)
    ensures
        exists|base: Seq<char>| folder@ == #[trigger] inside(base, RECORDINGS_FOLDER@),
{
    let audio = audio_dir();
    let video = video_dir();
    let documents = document_dir();
    default_recordings_folder(platform, audio, video, documents)
}

/// The name of a recording file, from the moment as it is written.
pub fn recording_filename(stamp: &str, format: &str) -> (name: String)
    ensures
        name@ == "recording_"@ + stamp@ + "."@ + format@,
{
    let mut name = joined("recording_", stamp);
    name.append(".");
    name.append(format);
    name
}

/// How the moment is written in the name of a recording file.
pub const FILE_STAMP: &'static str = "%Y%m%d_%H%M%S";

/// A moment as it stands in the name of a recording file: year, month and day, and behind an
/// underscore hour, minute and second.
pub open spec fn is_file_stamp(stamp: Seq<char>) -> bool {
    is_year_and(stamp, "NNNN_NNNNNN"@)
}

/// The date and time in universal time, as digits with an underscore between them.
///
/// Calls `chrono::Utc::now` and writes the moment with `format`. Claimed: the form of the
/// text, which is the same for every moment. Which moment it is rests on the clock.
#[verifier::external_body]
fn utc_stamp(pattern: &str) -> (stamp: String)
    requires
        pattern@ == FILE_STAMP@,
    ensures
        is_file_stamp(stamp@),
{
    chrono::Utc::now().format(pattern).to_string()
}

/// Generate a file name for a recording that begins now.
pub fn generate_recording_filename(format: &str) -> (name: String)
    ensures
        exists|stamp: Seq<char>| #[trigger]
            is_file_stamp(stamp) && name@ == "recording_"@ + stamp + "."@ + format@,
{
    let stamp = utc_stamp(FILE_STAMP);
    recording_filename(stamp.as_str(), format)
}

/// A path is the same place as one of the folders.
pub open spec fn is_a_root(path: Seq<char>, roots: Seq<Seq<char>>) -> bool {
    exists|i: int| 0 <= i < roots.len() && components(path) == components(#[trigger] roots[i])
}

/// A path is one meeting inside a recording folder: inside one of them, and none of them
/// itself, even where one lies inside another.
pub open spec fn meeting_folder(path: Seq<char>, roots: Seq<Seq<char>>) -> bool {
    !is_a_root(path, roots) && within_any(path, roots)
}

/// Whether a path is one meeting inside a recording folder, and so something that may be
/// deleted.
pub fn is_meeting_folder(path: &str, roots: &Vec<String>) -> (meeting: bool)
    ensures
        meeting == meeting_folder(path@, texts(roots@)),
{
    let mut index: usize = 0;
    while index < roots.len()
        invariant
            index <= roots@.len(),
            forall|i: int|
                0 <= i < index ==> components(path@) != components(#[trigger] texts(roots@)[i]),
        decreases roots@.len() - index,
    {
        assert(texts(roots@)[index as int] == roots@[index as int]@);
        if same_path(path, roots[index].as_str()) {
            return false;
        }
        index += 1;
    }
    inside_any(path, roots)
}

/// Nothing but a meeting may be deleted: a recording folder itself never is, nor is
/// anything outside of all of them.
pub proof fn roots_are_never_deleted(roots: Seq<Seq<char>>, index: int)
    requires
        0 <= index < roots.len(),
    ensures
        !meeting_folder(roots[index], roots),
{
    assert(is_a_root(roots[index], roots));
}

/// What is done with a folder that is to be discarded.
#[derive(Clone, Copy, Debug, PartialEq, Eq, Structural)]
pub enum Discard {
    /// There is nothing to do.
    Nothing,
    Folder,
    File,
}

/// Whether there is anything to discard, before the path is resolved.
pub fn discard_wanted(folder_path: &str, exists_there: bool) -> (wanted: bool)
    ensures
        wanted == (trimmed(folder_path@).len() > 0 && exists_there),
{
    let inner = trim(&chars_of(folder_path));
    inner.len() > 0 && exists_there
}

/// What is discarded, from the resolved path.
pub fn discard_recording_folder(
    path: &str,
    roots: &Vec<String>,
    is_dir: bool,
    is_file: bool,
) -> (what: Result<Discard, String>)
    ensures
        match what {
            Ok(discard) => meeting_folder(path@, texts(roots@)) && discard == if is_dir {
                Discard::Folder
            } else if is_file {
                Discard::File
            } else {
                Discard::Nothing
            },
            Err(reason) => !meeting_folder(path@, texts(roots@)) && reason@
                == "Refusing to delete path outside recordings folders"@,
        },
{
    if !is_meeting_folder(path, roots) {
        return Err("Refusing to delete path outside recordings folders".to_owned());
    }
    if is_dir {
        Ok(Discard::Folder)
    } else if is_file {
        Ok(Discard::File)
    } else {
        Ok(Discard::Nothing)
    }
}

/// A folder that is an application of its own.
pub open spec fn is_app_bundle(path: Seq<char>) -> bool {
    extension(path) matches Some(found) && ascii_lowered_text(found) == "app"@
}

/// The innermost application folder that a path lies in, or is.
pub open spec fn app_bundle_of(path: Seq<char>) -> Option<Seq<char>>
    decreases path.len(),
{
    if is_app_bundle(path) {
        Some(path)
    } else if folder_of(path).len() < path.len() {
        app_bundle_of(folder_of(path))
    } else {
        None
    }
}

/// The application folder that the running program lies in, if it lies in one.
pub fn current_app_bundle_root(exe: &str) -> (bundle: Option<String>)
    ensures
        match bundle {
            Some(path) => app_bundle_of(exe@) == Some(path@),
            None => app_bundle_of(exe@) is None,
        },
{
    let mut path = exe.to_owned();
    loop
        invariant
            app_bundle_of(path@) == app_bundle_of(exe@),
        decreases path@.len(),
    {
        let named = match path_extension(path.as_str()) {
            Some(found) => {
                let lower = text_of(&ascii_lower_text(&found));
                same_text(lower.as_str(), "app")
            },
            None => false,
        };
        if named {
            return Some(path);
        }
        let folder = parent_of(path.as_str());
        if chars_of(folder.as_str()).len() >= chars_of(path.as_str()).len() {
            return None;
        }
        path = folder;
    }
}

/// The folders that recordings may be in: the chosen one, the usual one and that of the
/// installation.
pub fn recording_roots(configured: Option<String>, usual: &str, installed: &str) -> (roots: Vec<
    String,
>)
    ensures
        texts(roots@) == seq![
            match configured {
                Some(chosen) => chosen@,
                None => usual@,
            },
            usual@,
            installed@,
        ],
{
    let first = match configured {
        Some(chosen) => chosen,
        None => usual.to_owned(),
    };
    let mut roots: Vec<String> = Vec::new();
    roots.push(first);
    roots.push(usual.to_owned());
    roots.push(installed.to_owned());
    assert(texts(roots@) =~= seq![roots@[0]@, usual@, installed@]);
    roots
}

/// A recordings folder may not lie inside the application itself. Both paths are resolved.
pub fn reject_path_inside_bundle(path: &str, bundle: &str) -> (allowed: Result<(), String>)
    ensures
        match allowed {
            Ok(()) => !is_within(path@, bundle@),
            Err(reason) => is_within(path@, bundle@) && reason@
                == "The recordings folder cannot be inside the Talkkeeper app bundle. Choose a folder in Movies, Music, Documents, or another writable location."@,
        },
{
    if within(path, bundle) {
        Err(
            "The recordings folder cannot be inside the Talkkeeper app bundle. Choose a folder in Movies, Music, Documents, or another writable location.".to_owned(),
        )
    } else {
        Ok(())
    }
}

/// A component that leads upwards.
pub open spec fn leads_up(part: Seq<char>) -> bool {
    part == seq!['.', '.']
}

/// A component that leads nowhere.
pub open spec fn leads_nowhere(part: Seq<char>) -> bool {
    part == seq!['.']
}

/// What a step of resolving a path comes to.
#[derive(Debug)]
pub enum ResolveStep {
    /// Nothing on disk has to be asked.
    Next,
    /// If there is such a path, its real one takes its place.
    Ask,
    /// The path is resolved.
    Done,
}

/// Resolving an absolute path component by component, so that a link is followed before
/// what comes behind it leads upwards.
pub struct PathResolver {
    pub parts: Vec<Vec<char>>,
    pub next: usize,
    pub resolved: Vec<Vec<char>>,
}

impl PathResolver {
    pub open spec fn wf(&self) -> bool {
        self.next <= self.parts@.len()
    }

    pub fn new(absolute: &str) -> (resolver: PathResolver)
        ensures
            resolver.wf(),
            spelled(resolver.parts@) == components(absolute@),
            resolver.next == 0,
            resolver.resolved@.len() == 0,
    {
        PathResolver { parts: components_of(&chars_of(absolute)), next: 0, resolved: Vec::new() }
    }

    /// Takes the next component: one that leads upwards takes the last one away, unless
    /// only the top is left, and any other is added.
    pub fn step(&mut self) -> (step: ResolveStep)
        requires
            old(self).wf(),
        ensures
            final(self).wf(),
            final(self).parts == old(self).parts,
            ({
                let done = old(self).next == old(self).parts@.len();
                let part = old(self).parts@[old(self).next as int]@;
                let before = spelled(old(self).resolved@);
                let after = spelled(final(self).resolved@);
                &&& done ==> step is Done && *final(self) == *old(self)
                &&& !done ==> final(self).next == old(self).next + 1
                &&& !done && leads_nowhere(part) ==> step is Next && after == before
                &&& !done && leads_up(part) ==> step is Next && after == if before.len() <= 1 {
                    before
                } else {
                    before.drop_last()
                }
                &&& !done && !leads_nowhere(part) && !leads_up(part) ==> after == before.push(part)
                    && if part == seq!['/'] {
                    step is Next
                } else {
                    step is Ask
                }
            }),
    {
        if self.next >= self.parts.len() {
            return ResolveStep::Done;
        }
        let ghost before = self.resolved@;
        let part = crate::text::piece(&self.parts[self.next], 0, self.parts[self.next].len());
        assert(part@ =~= self.parts@[self.next as int]@);
        self.next += 1;
        let nowhere = part.len() == 1 && part[0] == '.';
        assert(nowhere == (part@ =~= seq!['.']));
        let up = part.len() == 2 && part[0] == '.' && part[1] == '.';
        assert(up == (part@ =~= seq!['.', '.']));
        if nowhere {
            return ResolveStep::Next;
        }
        if up {
            if self.resolved.len() > 1 {
                let _ = self.resolved.pop();
                assert(spelled(self.resolved@) =~= spelled(before).drop_last());
            }
            return ResolveStep::Next;
        }
        let top = part.len() == 1 && part[0] == '/';
        assert(top == (part@ =~= seq!['/']));
        let ghost added = part@;
        self.resolved.push(part);
        assert(spelled(self.resolved@) =~= spelled(before).push(added));
        if top {
            ResolveStep::Next
        } else {
            ResolveStep::Ask
        }
    }

    /// The real path of what is resolved so far.
    pub fn replace(&mut self, canonical: &str)
        requires
            old(self).wf(),
        ensures
            final(self).wf(),
            final(self).parts == old(self).parts,
            final(self).next == old(self).next,
            spelled(final(self).resolved@) == components(canonical@),
    {
        self.resolved = components_of(&chars_of(canonical));
    }
}

/// Get backend information.
#[derive(Debug)]
pub struct BackendInfo {
    pub id: String,
    pub name: String,
    pub description: String,
}

/// The ways to capture system audio: those that macOS offers, and elsewhere the only one.
pub fn get_audio_backend_info(platform: Platform, offered: Vec<BackendInfo>) -> (backends: Vec<
    BackendInfo,
>)
    ensures
        platform is MacOs ==> backends == offered,
        !(platform is MacOs) ==> {
            &&& backends@.len() == 1
            &&& backends@[0].id@ == "screencapturekit"@
            &&& backends@[0].name@ == "ScreenCaptureKit"@
            &&& backends@[0].description@ == "Default system audio capture"@
        },
{
    match platform {
        Platform::MacOs => offered,
        _ => {
            let mut backends: Vec<BackendInfo> = Vec::new();
            backends.push(
                BackendInfo {
                    id: "screencapturekit".to_owned(),
                    name: "ScreenCaptureKit".to_owned(),
                    description: "Default system audio capture".to_owned(),
                },
            );
            backends
        },
    }
}

/// Get what the ways to capture system audio are called.
pub fn get_available_audio_backends(platform: Platform, offered: &Vec<BackendInfo>) -> (backends:
    Vec<String>)
    ensures
        platform is MacOs ==> {
            &&& backends@.len() == offered@.len()
            &&& forall|i: int| 0 <= i < offered@.len() ==> (#[trigger] backends@[i])@ == offered@[i].id@
        },
        !(platform is MacOs) ==> texts(backends@) == seq!["screencapturekit"@],
{
    let mut backends: Vec<String> = Vec::new();
    match platform {
        Platform::MacOs => {
            while backends.len() < offered.len()
                invariant
                    backends@.len() <= offered@.len(),
                    forall|i: int|
                        0 <= i < backends@.len() ==> (#[trigger] backends@[i])@ == offered@[i].id@,
                decreases offered@.len() - backends@.len(),
            {
                let index: usize = backends.len();
                backends.push(offered[index].id.clone());
            }
        },
        _ => {
            backends.push("screencapturekit".to_owned());
            assert(texts(backends@) =~= seq!["screencapturekit"@]);
        },
    }
    backends
}

/// Get the way system audio is captured: on macOS the one in use, elsewhere the only one.
pub fn get_current_audio_backend(platform: Platform, current: String) -> (backend: String)
    ensures
        platform is MacOs ==> backend == current,
        !(platform is MacOs) ==> backend@ == "screencapturekit"@,
{
    match platform {
        Platform::MacOs => current,
        _ => "screencapturekit".to_owned(),
    }
}

/// Whether the way to capture system audio can be set to this one. `known` says whether
/// macOS knows it.
pub fn set_audio_backend(platform: Platform, backend: &str, known: bool) -> (accepted: Result<
    (),
    String,
>)
    ensures
        match accepted {
            Ok(()) => if platform is MacOs {
                known
            } else {
                backend@ == "screencapturekit"@
            },
            Err(reason) => if platform is MacOs {
                !known && reason@ == "Invalid backend: "@ + backend@
            } else {
                backend@ != "screencapturekit"@ && reason@ == "Backend "@ + backend@
                    + " not available on this platform"@
            },
        },
{
    match platform {
        Platform::MacOs => if known {
            Ok(())
        } else {
            Err(joined("Invalid backend: ", backend))
        },
        _ => if same_text(backend, "screencapturekit") {
            Ok(())
        } else {
            let mut reason = joined("Backend ", backend);
            reason.append(" not available on this platform");
            Err(reason)
        },
    }
}

/// A gain that is a number comes out between a half and three: what lies there is kept, what
/// is less (a negative number among it) becomes a half and what is more becomes three. Of two
/// that are not negative, the greater does not come out smaller. What is no number is kept.
pub proof fn gain_comes_out_between_its_bounds(bits: u32, more: u32)
    ensures
        ({
            let magnitude = bits as int % 0x8000_0000;
            let gain = gain_between(bits);
            &&& magnitude <= 0x7f80_0000 ==> 0x3f00_0000 <= gain <= 0x4040_0000
            &&& 0x3f00_0000 <= bits <= 0x4040_0000 ==> gain == bits
            &&& bits >= 0x8000_0000 && magnitude <= 0x7f80_0000 ==> gain == 0x3f00_0000
            &&& bits < 0x3f00_0000 ==> gain == 0x3f00_0000
            &&& 0x4040_0000 < bits <= 0x7f80_0000 ==> gain == 0x4040_0000
            &&& magnitude > 0x7f80_0000 ==> gain == bits
            &&& bits <= more <= 0x7f80_0000 ==> gain <= gain_between(more)
        }),
{
}

/// Recordings are kept beside the owner's music on Windows and beside their films on macOS,
/// where there is such a folder; elsewhere, and without one, beside the documents; and here
/// where there are none of these.
pub proof fn recordings_lie_beside_other_media(
    platform: Platform,
    media: String,
    other: Option<String>,
    documents: String,
)
    ensures
        default_base(Platform::Windows, Some(media), other, Some(documents)) == media@,
        default_base(Platform::MacOs, other, Some(media), Some(documents)) == media@,
        default_base(Platform::Windows, None, other, Some(documents)) == documents@,
        default_base(Platform::MacOs, other, None, Some(documents)) == documents@,
        default_base(Platform::Other, other, Some(media), Some(documents)) == documents@,
        default_base(platform, None, None, None) == "."@,
{
}

/// What failed is reported with the reason that was given, and the step that failed with it
/// where that says more.
pub proof fn saving_error_gives_the_reason(stage: SavingStage, reason: Seq<char>)
    ensures
        crate::text::ends_with(saving_error(stage, reason), reason),
        stage is Folder ==> saving_error(stage, reason) == reason,
{
    crate::recording_commands::lemma_end("Failed to serialize preferences: "@, reason);
    crate::recording_commands::lemma_end("Failed to save store to disk: "@, reason);
    crate::recording_commands::lemma_end(Seq::empty(), reason);
    assert(Seq::<char>::empty() + reason =~= reason);
}

/// A step that fails ends the saving, but that the old value is put back first where the store
/// could not be written; a saving that ended stays ended.
pub proof fn failed_saving_ends(stage: SavingStage, done: bool)
    ensures
        stage is Folder || stage is Serialize ==> saving_next(stage, false) is Failed,
        saving_next(SavingStage::PutBack, done) is Failed,
        saving_next(SavingStage::Apply, done) is Done,
        saving_next(SavingStage::Failed, done) is Failed,
        saving_next(SavingStage::Done, done) is Done,
        saving_next(stage, true) is Failed ==> stage is PutBack || stage is Failed,
{
}

/// A meeting lies below one of the recording folders, by at least one name, and what lies
/// below one is a meeting unless it is one of them itself. Nothing outside of all is one.
pub proof fn meetings_lie_below_a_root(path: Seq<char>, roots: Seq<Seq<char>>)
    ensures
        meeting_folder(path, roots) ==> exists|i: int|
            0 <= i < roots.len() && components(#[trigger] roots[i]).len() < components(path).len()
                && components(path).take(components(roots[i]).len() as int) == components(roots[i]),
        (forall|i: int| 0 <= i < roots.len() ==> !is_within(path, #[trigger] roots[i]))
            ==> !meeting_folder(path, roots),
{
    if meeting_folder(path, roots) {
        let i = choose|i: int| 0 <= i < roots.len() && is_within(path, #[trigger] roots[i]);
        let inner = components(path);
        let outer = components(roots[i]);
        if outer.len() == inner.len() {
            assert(inner.take(outer.len() as int) =~= inner);
            assert(is_a_root(path, roots));
        }
    }
}

/// Whatever is put into the only recording folder under a name of its own may be deleted.
pub proof fn what_is_in_a_root_is_a_meeting(root: Seq<char>, name: Seq<char>)
    requires
        root.len() > 0,
        crate::paths::plain_name(name),
    ensures
        meeting_folder(inside(root, name), seq![root]),
{
    crate::paths::joined_path_is_one_deeper(root, name);
    let roots = seq![root];
    let path = inside(root, name);
    assert(is_within(path, roots[0]));
    assert(within_any(path, roots));
    assert forall|i: int| 0 <= i < roots.len() implies components(path) != components(
        #[trigger] roots[i],
    ) by {
        assert(components(path).len() == components(root).len() + 1);
    }
}

/// The application that a path lies in is named as one, in whatever case; what is put inside a
/// folder and is no application itself lies in the one that the folder lies in.
pub proof fn application_is_that_of_the_folder(folder: Seq<char>, name: Seq<char>)
    requires
        crate::paths::ends_with_a_name(folder),
        crate::paths::plain_name(name),
    ensures
        ({
            let path = inside(folder, name);
            let named = extension(path) matches Some(found) && ascii_lowered_text(found) == "app"@;
            &&& named ==> app_bundle_of(path) == Some(path)
            &&& !named ==> app_bundle_of(path) == app_bundle_of(folder)
        }),
{
    crate::paths::joined_path_is_taken_apart(folder, name);
}

/// What is said to be the application that a path lies in is named as one.
pub proof fn application_is_named_as_one(path: Seq<char>)
    ensures
        app_bundle_of(path) matches Some(bundle) ==> bundle.len() <= path.len() && (extension(
            bundle,
        ) matches Some(found) && ascii_lowered_text(found) == "app"@),
    decreases path.len(),
{
    if !is_app_bundle(path) && folder_of(path).len() < path.len() {
        application_is_named_as_one(folder_of(path));
    }
}

} // verus!
