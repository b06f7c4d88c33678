use talkkeeper_audio::encrypted_audio::AudioSource;
use talkkeeper_audio::recording_protocol::{
    allowed_recording, answered, content_range, content_type, is_audio, meeting_playback_file, parse_range,
    requested_path, serve, Refusal, ServePlan,
};

#[test]
fn a_path_survives_being_carried_in_a_url() {
    let encoded = "/D%3A%2Frecordings%2FMeeting%202026%2Faudio.mp4";
    assert_eq!(requested_path(encoded).as_deref(), Some("D:/recordings/Meeting 2026/audio.mp4"));
}

#[test]
fn a_meeting_named_in_any_language_survives_it_too() {
    let encoded = "/%D0%92%D1%81%D1%82%D1%80%D0%B5%D1%87%D0%B0%2Faudio.mp4";
    assert_eq!(requested_path(encoded).as_deref(), Some("Встреча/audio.mp4"));
}

#[test]
fn nothing_is_asked_for_by_an_empty_path() {
    assert_eq!(requested_path("/"), None);
    assert_eq!(requested_path(""), None);
}

#[test]
fn what_cannot_be_read_is_not_asked_for() {
    assert_eq!(requested_path("/%zz"), None);
    assert_eq!(requested_path("/%ff"), None, "not a text");
    assert_eq!(requested_path("/%+f"), Some("\u{f}".to_string()));
    // A percent sign with too little behind it stands for itself.
    assert_eq!(requested_path("/a%4").as_deref(), Some("a%4"));
    assert_eq!(requested_path("//a").as_deref(), Some("/a"));
}

#[test]
fn only_audio_is_served() {
    assert!(is_audio("/recordings/meeting/audio.mp4"));
    assert!(is_audio("/recordings/meeting/.work/mic.FLAC"));
    assert!(!is_audio("/data/meeting_minutes.sqlite"));
    assert!(!is_audio("/recordings/meeting/transcripts.json"));
    assert!(!is_audio("/recordings/meeting/.mp4"));
    assert!(!is_audio("/recordings/meeting.mp4/notes"));
}

#[test]
fn the_player_is_told_what_it_is_playing() {
    assert_eq!(content_type("a/audio.mp4"), "audio/mp4");
    assert_eq!(content_type("a/mic.flac"), "audio/flac");
    assert_eq!(content_type("a/x.unknown"), "application/octet-stream");
    assert_eq!(content_type("a/x.M4A"), "audio/mp4");
    assert_eq!(content_type("a/x.wav"), "audio/wav");
    assert_eq!(content_type("a/x.mp3"), "audio/mpeg");
    assert_eq!(content_type("a/x.oga"), "audio/ogg");
    assert_eq!(content_type("a/x.webm"), "audio/webm");
    assert_eq!(content_type("a/x.aac"), "audio/aac");
    assert_eq!(content_type("a/x"), "application/octet-stream");
}

#[test]
fn a_range_is_read_the_way_a_player_writes_it() {
    assert_eq!(parse_range("bytes=0-499", 1000), Some((0, 499)));
    assert_eq!(parse_range("bytes=500-", 1000), Some((500, 999)));
    assert_eq!(parse_range("bytes=900-5000", 1000), Some((900, 999)));
    assert_eq!(parse_range("bytes=-100", 1000), Some((900, 999)));
}

#[test]
fn a_range_that_cannot_be_answered_is_not_invented() {
    assert_eq!(parse_range("bytes=1000-", 1000), None);
    assert_eq!(parse_range("items=0-1", 1000), None);
    assert_eq!(parse_range("bytes=0-1,5-6", 1000), None);
    assert_eq!(parse_range("bytes=abc-", 1000), None);
    assert_eq!(parse_range("bytes=0-0", 0), None);
}

#[test]
fn a_range_at_the_edges_of_what_can_be_written() {
    assert_eq!(parse_range("  bytes= 1 - 2 ", 1000), Some((1, 2)));
    assert_eq!(parse_range("bytes=+1-+2", 1000), Some((1, 2)));
    assert_eq!(parse_range("bytes=-", 1000), None);
    assert_eq!(parse_range("bytes=-0", 1000), Some((999, 999)));
    assert_eq!(parse_range("bytes=-5000", 1000), Some((0, 999)));
    assert_eq!(parse_range("bytes=0-18446744073709551615", 10), Some((0, 9)));
    assert_eq!(parse_range("bytes=0-18446744073709551616", 10), None);
    assert_eq!(parse_range("bytes=12", 1000), None);
    assert_eq!(parse_range("bytes=5-3", 1000), Some((5, 3)));
}

#[test]
fn a_range_request_is_answered_with_that_range() {
    let plan = serve(Some("bytes=10-19"), &AudioSource::Encrypted(256));
    assert_eq!(plan, ServePlan { start: 10, wanted: 10, partial: true });
    assert_eq!(content_range(plan.start, 10, 256), "bytes 10-19/256");

    let audio: Vec<u8> = (0..=255).collect();
    let body = audio[10..20].to_vec();
    let answer = answered(plan, "/r/m/audio.MP4", &AudioSource::Encrypted(256), body.clone());
    assert_eq!((answer.status, answer.content_type), (206, "audio/mp4"));
    assert_eq!((answer.cache_control, answer.accept_ranges), ("no-store", "bytes"));
    assert_eq!(answer.content_range.as_deref(), Some("bytes 10-19/256"));
    assert_eq!(answer.content_length, 10);
    assert_eq!(answer.body, body);
}

#[test]
fn a_range_is_read_as_it_is_written() {
    let length = 1_000u64;
    for (first, last) in [(0u64, 0u64), (10, 19), (999, u64::MAX), (1_000, 1_001), (7, 3)] {
        let expected = if first >= length { None } else { Some((first, last.min(length - 1))) };
        assert_eq!(parse_range(&format!("bytes={first}-{last}"), length), expected);
        assert_eq!(
            parse_range(&format!("bytes={first}-"), length),
            parse_range(&format!("bytes={first}-{}", length - 1), length)
        );
    }
    for count in [1u64, 500, 1_000] {
        assert_eq!(
            parse_range(&format!("bytes=-{count}"), length),
            parse_range(&format!("bytes={}-", length - count), length)
        );
    }
}

#[test]
fn a_recording_that_is_still_growing_is_described_by_what_was_read() {
    let source = AudioSource::Plain(100);
    let plan = serve(Some("bytes=90-"), &source);
    let answer = answered(plan, "a.flac", &source, vec![0; 4]);
    assert_eq!(answer.content_range.as_deref(), Some("bytes 90-93/100"));
    let whole = answered(serve(None, &source), "a.flac", &source, vec![0; 100]);
    assert_eq!((whole.status, whole.content_range), (200, None));
}

#[test]
fn without_a_range_the_whole_recording_is_answered() {
    assert_eq!(serve(None, &AudioSource::Plain(17)), ServePlan { start: 0, wanted: 17, partial: false });
    assert_eq!(serve(Some("items=1"), &AudioSource::Plain(17)), ServePlan { start: 0, wanted: 17, partial: false });
    assert_eq!(serve(Some("bytes=5-3"), &AudioSource::Plain(17)), ServePlan { start: 5, wanted: 1, partial: true });
}

#[test]
fn a_refusal_has_its_status() {
    assert_eq!(Refusal::Unreadable.answer(), (400, "Not a readable path"));
    assert_eq!(Refusal::Forbidden("Not a file").answer(), (403, "Not a file"));
    assert_eq!(Refusal::Failed.answer(), (500, "Could not read the recording"));
}

#[test]
fn there_is_something_to_play_only_inside_our_folders() {
    let names = vec!["notes.txt".to_string(), "imported.OGG".to_string()];
    let roots = vec!["/r".to_string()];
    assert_eq!(meeting_playback_file("  ", Some("/r/m"), &names, &roots), Ok(None));
    assert_eq!(meeting_playback_file("/r/m", None, &names, &roots), Ok(None));
    assert_eq!(meeting_playback_file("/r/m", Some("/r/m"), &vec![], &roots), Ok(None));
    assert_eq!(
        meeting_playback_file("/r/m", Some("/r/m"), &names, &roots),
        Ok(Some("/r/m/imported.OGG".to_string()))
    );
    assert_eq!(
        meeting_playback_file("/x", Some("/x"), &names, &roots),
        Err("That folder is not a recording folder".to_string())
    );
}

#[test]
fn only_a_recording_of_ours_is_handed_out() {
    let roots = vec!["/recordings".to_string()];
    assert_eq!(allowed_recording("/recordings/m/audio.mp4", true, &roots), Ok(()));
    assert_eq!(allowed_recording("/recordings/m/audio.mp4", false, &roots), Err("Not a file"));
    assert_eq!(allowed_recording("/recordings/m/notes.txt", true, &roots), Err("Not an audio file"));
    assert_eq!(
        allowed_recording("/recordings2/audio.mp4", true, &roots),
        Err("Outside the recording folders")
    );
}
