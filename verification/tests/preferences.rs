use talkkeeper_audio::recording_preferences::{
    get_available_audio_backends, get_current_audio_backend,
    clamp_gain, current_app_bundle_root, default_recordings_folder, discard_recording_folder, discard_wanted,
    echo_cancellation, echo_text_filter, generate_recording_filename, get_audio_backend_info,
    get_default_recordings_folder, is_meeting_folder, loaded_preferences, mic_gain,
    own_speech_detector, preferences_to_save, recording_filename, recording_roots, reject_path_inside_bundle,
    set_audio_backend, single_remote_speaker, system_echo_cancellation, system_gain, Discard,
    chosen_backend, BackendInfo, PathResolver, PreferencesSave, RecordingPreferences, ResolveStep,
    RuntimePreferences, SavingStage,
};
use talkkeeper_audio::stream::Platform;

#[test]
fn only_a_meeting_inside_a_recordings_folder_may_be_deleted() {
    let roots = vec!["/recordings".to_string(), "/recordings/custom".to_string()];

    assert!(is_meeting_folder("/recordings/Meeting 2026", &roots));
    assert!(is_meeting_folder("/recordings/custom/Meeting 2026", &roots));

    assert!(!is_meeting_folder("/recordings", &roots));
    assert!(!is_meeting_folder("/recordings/custom", &roots));

    assert!(!is_meeting_folder("/elsewhere/Meeting", &roots));
    assert!(!is_meeting_folder("/", &roots));
    assert!(!is_meeting_folder("/recordings/", &roots));
    assert!(!is_meeting_folder("/recordingsX/m", &roots));
}

#[test]
fn discarding_touches_nothing_else() {
    let roots = vec!["/recordings".to_string()];
    assert!(!discard_wanted("  ", true));
    assert!(!discard_wanted("/recordings/m", false));
    assert!(discard_wanted("/recordings/m", true));
    assert_eq!(discard_recording_folder("/recordings/m", &roots, true, false), Ok(Discard::Folder));
    assert_eq!(discard_recording_folder("/recordings/m", &roots, false, true), Ok(Discard::File));
    assert_eq!(discard_recording_folder("/recordings/m", &roots, false, false), Ok(Discard::Nothing));
    assert_eq!(
        discard_recording_folder("/recordings", &roots, true, false),
        Err("Refusing to delete path outside recordings folders".to_string())
    );
}

#[test]
fn app_bundle_and_descendants_are_rejected_as_recording_folders() {
    let bundle = "/Applications/Meetily.app";
    assert!(reject_path_inside_bundle(bundle, bundle).is_err());
    assert!(reject_path_inside_bundle("/Applications/Meetily.app/Contents/new", bundle).is_err());
    assert!(reject_path_inside_bundle("/Applications/recordings", bundle).is_ok());
}

fn resolve(path: &str, link: (&str, &str)) -> String {
    let mut resolver = PathResolver::new(path);
    loop {
        match resolver.step() {
            ResolveStep::Next => {}
            ResolveStep::Ask => {
                let so_far = written(&resolver);
                if so_far == link.0 {
                    resolver.replace(link.1);
                }
            }
            ResolveStep::Done => return written(&resolver),
        }
    }
}

fn written(resolver: &PathResolver) -> String {
    let parts: Vec<String> =
        resolver.resolved.iter().map(|part| part.iter().collect::<String>()).collect();
    format!("/{}", parts[1..].join("/"))
}

#[test]
fn symlink_parent_traversal_into_app_bundle_is_rejected() {
    let bundle = "/root/Meetily.app";
    let link = ("/root/link", "/root/Meetily.app/Contents/MacOS");
    let resolved = resolve("/root/link/../Resources/recordings", link);
    assert_eq!(resolved, "/root/Meetily.app/Contents/Resources/recordings");
    assert!(reject_path_inside_bundle(&resolved, bundle).is_err());
    assert_eq!(resolve("/../../a/./b", ("", "")), "/a/b");
}

#[test]
fn the_application_knows_its_own_folder() {
    let exe = "/Applications/Talk.App/Contents/MacOS/talk";
    assert_eq!(current_app_bundle_root(exe).as_deref(), Some("/Applications/Talk.App"));
    assert_eq!(current_app_bundle_root("/usr/bin/talk"), None);
    assert_eq!(current_app_bundle_root("talk"), None);
    assert_eq!(recording_roots(None, "/u", "/i"), vec!["/u", "/u", "/i"]);
    assert_eq!(recording_roots(Some("/c".to_string()), "/u", "/i"), vec!["/c", "/u", "/i"]);
}

#[test]
fn a_gain_is_brought_between_its_bounds() {
    for (given, expected) in [(0.1f32, 0.5f32), (0.5, 0.5), (1.4, 1.4), (3.0, 3.0), (9.0, 3.0), (-1.0, 0.5)] {
        assert_eq!(clamp_gain(given.to_bits()), expected.to_bits(), "{given}");
        assert_eq!(f32::from_bits(clamp_gain(given.to_bits())), given.clamp(0.5, 3.0));
    }
    assert_eq!(clamp_gain(f32::INFINITY.to_bits()), 3.0f32.to_bits());
    assert!(f32::from_bits(clamp_gain(f32::NAN.to_bits())).is_nan());
}

#[test]
fn preferences_take_effect_when_they_are_applied() {
    let mut runtime = RuntimePreferences::new();
    assert!(echo_cancellation(&runtime));
    assert!(system_echo_cancellation(&runtime));
    assert!(single_remote_speaker(&runtime));
    assert!(!own_speech_detector(&runtime));
    assert!(!echo_text_filter(&runtime));

    let mut preferences = RecordingPreferences::default_in("/r".to_string(), Platform::Windows);
    assert_eq!(preferences.system_gain, 1.0f32.to_bits());
    assert_eq!(preferences.file_format, "mp4");
    preferences.mic_gain = 7.0f32.to_bits();
    preferences.system_gain = 0.1f32.to_bits();
    preferences.echo_cancellation = false;
    preferences.own_speech_detector = true;
    runtime.apply(&preferences);
    assert_eq!(mic_gain(&runtime), 3.0f32.to_bits());
    assert_eq!(system_gain(&runtime), 0.5f32.to_bits());
    assert!(!echo_cancellation(&runtime));
    assert!(own_speech_detector(&runtime));

    let saved = preferences_to_save(preferences);
    assert_eq!(saved.mic_gain, 3.0f32.to_bits());
    assert_eq!(saved.save_folder, "/r");
}

#[test]
fn stored_preferences_are_used_but_never_with_a_folder_inside_the_application() {
    let stored = || Some(RecordingPreferences::default_in("/custom".to_string(), Platform::Windows));
    let (used, corrected) = loaded_preferences(stored(), "/default".to_string(), false, Platform::Windows, "");
    assert_eq!((used.save_folder.as_str(), corrected), ("/custom", false));
    let (used, corrected) = loaded_preferences(stored(), "/default".to_string(), true, Platform::Windows, "");
    assert_eq!((used.save_folder.as_str(), corrected), ("/default", true));
    let (used, corrected) = loaded_preferences(None, "/default".to_string(), true, Platform::Windows, "");
    assert_eq!((used.save_folder.as_str(), corrected), ("/default", false));
}

#[test]
fn recordings_are_kept_beside_the_owners_other_media() {
    let some = |path: &str| Some(path.to_string());
    assert_eq!(
        default_recordings_folder(Platform::Windows, some(r"C:\Users\o\Music"), None, some("d")),
        r"C:\Users\o\Music\meetily-recordings"
    );
    assert_eq!(
        default_recordings_folder(Platform::Windows, None, some("v"), some("/d")),
        "/d/meetily-recordings"
    );
    assert_eq!(
        default_recordings_folder(Platform::MacOs, some("a"), some("/Users/o/Movies"), None),
        "/Users/o/Movies/meetily-recordings"
    );
    assert_eq!(
        default_recordings_folder(Platform::Other, some("a"), some("v"), None),
        "./meetily-recordings"
    );
    assert!(get_default_recordings_folder(Platform::Other).ends_with("meetily-recordings"));
}

#[test]
fn a_recording_file_is_named_after_its_moment() {
    assert_eq!(recording_filename("20260830_120000", "mp4"), "recording_20260830_120000.mp4");
    let now = generate_recording_filename("wav");
    assert!(now.starts_with("recording_2") && now.ends_with(".wav"));
    assert_eq!(now.len(), "recording_20260830_120000.wav".len());
    for (written, form) in now.chars().zip("recording_00000000_000000.wav".chars()) {
        assert!(written == form || (form == '0' && written.is_ascii_digit()), "{now}");
    }
}

fn offered() -> Vec<BackendInfo> {
    vec![BackendInfo {
        id: "coreaudio".to_string(),
        name: "Core Audio".to_string(),
        description: "A tap".to_string(),
    }]
}

#[test]
fn there_is_one_backend_where_there_is_no_choice() {
    let backends = get_audio_backend_info(Platform::Windows, offered());
    assert_eq!(backends.len(), 1);
    assert_eq!(backends[0].id, "screencapturekit");
    assert!(set_audio_backend(Platform::Other, "screencapturekit", false).is_ok());
    assert_eq!(
        set_audio_backend(Platform::Windows, "coreaudio", true).unwrap_err(),
        "Backend coreaudio not available on this platform"
    );
    assert_eq!(
        get_available_audio_backends(Platform::Other, &offered()),
        vec!["screencapturekit".to_string()]
    );
    let current = get_current_audio_backend(Platform::Windows, "coreaudio".to_string());
    assert_eq!(current, "screencapturekit");
}

#[test]
fn where_there_is_a_choice_of_backends_it_is_kept() {
    let mac = Platform::MacOs;
    assert_eq!(get_audio_backend_info(mac, offered())[0].name, "Core Audio");
    assert_eq!(get_available_audio_backends(mac, &offered()), vec!["coreaudio".to_string()]);
    assert_eq!(get_current_audio_backend(mac, "coreaudio".to_string()), "coreaudio");
    assert!(set_audio_backend(mac, "coreaudio", true).is_ok());
    assert_eq!(set_audio_backend(mac, "x", false).unwrap_err(), "Invalid backend: x");

    let fresh = RecordingPreferences::default_in("/r".to_string(), mac);
    assert_eq!(chosen_backend(&fresh, mac).map(|id| id.as_str()), Some("coreaudio"));
    assert!(chosen_backend(&fresh, Platform::Windows).is_none());
    let (used, _) =
        loaded_preferences(Some(fresh), "/d".to_string(), false, mac, "screencapturekit");
    assert_eq!(used.system_audio_backend.as_deref(), Some("screencapturekit"));
    let other = RecordingPreferences::default_in("/r".to_string(), Platform::Other);
    assert_eq!(other.system_audio_backend, None);
}

fn saving(outcomes: &[Result<(), &str>]) -> PreferencesSave {
    let mut preferences = RecordingPreferences::default_in("/r".to_string(), Platform::Other);
    preferences.mic_gain = 9.0f32.to_bits();
    let mut save = PreferencesSave::begin(preferences);
    for outcome in outcomes {
        save.step(outcome.map_err(str::to_string));
    }
    save
}

#[test]
fn only_what_is_on_disk_is_used() {
    let begun = saving(&[]);
    assert_eq!(begun.stage, SavingStage::Folder);
    assert_eq!(begun.preferences.mic_gain, 3.0f32.to_bits());
    assert_eq!(saving(&[Ok(()), Ok(()), Ok(())]).stage, SavingStage::Apply);
    assert_eq!(saving(&[Ok(()), Ok(()), Ok(()), Ok(())]).stage, SavingStage::Done);

    let refused = saving(&[Err("read-only")]);
    assert_eq!((refused.stage, refused.error.as_deref()), (SavingStage::Failed, Some("read-only")));
    let unwritten = saving(&[Ok(()), Err("odd")]);
    assert_eq!(unwritten.error.as_deref(), Some("Failed to serialize preferences: odd"));
    let full = saving(&[Ok(()), Ok(()), Err("full")]);
    assert_eq!(full.stage, SavingStage::PutBack);
    let put_back = saving(&[Ok(()), Ok(()), Err("full"), Err("gone")]);
    assert_eq!(put_back.stage, SavingStage::Failed);
    assert_eq!(put_back.error.as_deref(), Some("Failed to save store to disk: full"));
}

#[test]
fn a_backslash_separates_only_where_windows_wrote_the_path() {
    let meeting = |path: &str, root: &str| is_meeting_folder(path, &vec![root.to_string()]);
    assert!(meeting(r"C:\rec\one", r"C:\rec"));
    assert!(meeting(r"c:\rec/one", "c:/rec"));
    assert!(meeting(r"\\srv\share\rec\one", r"\\srv\share\rec"));
    assert!(!meeting(r"/rec\one", "/rec"));
    assert!(meeting(r"/rec/a\b", "/rec"));
    assert!(!meeting(r"/rec/a\b", r"/rec/a"));
}
