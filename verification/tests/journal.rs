use talkkeeper_audio::checkpoint_recovery::{
    checkpoint_selection, cleanup_checkpoints, concat_args, concat_list, ffconcat_file_line,
    has_audio_checkpoints, has_unfinished_tracks, is_checkpoint_file, joined_pieces, mixed_not_joined, recovered_tracks,
    track_cleanup, unrecovered, Cleanup, FolderFile,
};
use talkkeeper_audio::ffmpeg::{candidates, find_ffmpeg_path, FfmpegPlace};
use talkkeeper_audio::moments::Moment;
use talkkeeper_audio::orphan_recordings::{
    described_duration,
    foreign_recording, key_file_read, looks_like_recording, may_touch, password_tried,
    prepared_audio, probe, recovery_code_tried, rekey_outcome, rekey_target,
    restore_recording_without_meeting, restored_start_of, restored_title, track_files, AudioOnly,
    KeyStep, TrackSize, Unlocking,
};
use talkkeeper_audio::paths::{parent_of, within};
use talkkeeper_audio::recording_saver::TranscriptSegment;
use talkkeeper_audio::recovery_run::{
    JoinEvent, JoinStage, RecoveryEvent, RecoveryRun, RecoveryStage, TrackJoin,
};
use talkkeeper_audio::stream::Platform;
use talkkeeper_audio::streaming_encoder::{
    decode_complaints, drain_into, encoder_args, finished_name, flac, keep_complaints, mp4_aac, partial_path_for,
    publish_partial, recover_partial_tracks, Drain, DrainEvent, DrainStage, EncoderTrack, MemorySink, PartialRecovery,
};
use talkkeeper_audio::transcript_journal::{
    add_offer, append, audio_offer, begin, checked_folder, end, find, folder_step, header, is_active,
    journal_step, last_written, may_read, plain, read, CurrentJournal, FolderEntry, FolderStep, JournalStep,
    Record, Unsaved, JOURNAL_FILE,
};

fn segment(sequence_id: u64, text: &str) -> TranscriptSegment {
    TranscriptSegment {
        id: format!("seg_{sequence_id}"),
        text: text.to_string(),
        audio_start_time: (sequence_id as f64).to_bits(),
        audio_end_time: (sequence_id as f64 + 1.0).to_bits(),
        duration: 1.0f64.to_bits(),
        display_time: "[00:00]".to_string(),
        confidence: 1.0f32.to_bits(),
        sequence_id,
        speaker: Some("You".to_string()),
    }
}

fn entry(path: &str, has_journal: bool, has_recording: bool) -> FolderEntry {
    FolderEntry { path: path.to_string(), has_journal, has_recording }
}

#[test]
fn a_journal_reads_back_with_updates_applied_and_torn_lines_skipped() {
    assert_eq!(JOURNAL_FILE, "transcript.journal");
    let folder = "/r/meeting";
    let mut current = CurrentJournal::new();
    begin(&mut current, folder.to_string());
    assert!(is_active(&current, folder));
    // A recording still running is not offered for recovery.
    assert!(find(&vec![entry(folder, true, false)], &current).is_empty());
    assert!(append(&current).unwrap().ends_with("transcript.journal"));
    end(&mut current);
    assert_eq!(append(&current), None);
    assert!(!is_active(&current, folder));

    let lines = vec![
        Some(Record::Meeting {
            title: "Встреча".to_string(),
            started_at: "2026-09-18T10:00:00Z".to_string(),
        }),
        Some(Record::Segment(segment(2, "второе"))),
        Some(Record::Segment(segment(1, "первое"))),
        Some(Record::Segment(segment(2, "второе, исправленное"))),
        None,
    ];
    let (journal, skipped) = read(folder, lines, 5);
    assert_eq!(journal.title, "Встреча");
    let texts: Vec<_> = journal.segments.iter().map(|s| s.text.as_str()).collect();
    assert_eq!(texts, ["первое", "второе, исправленное"]);
    assert_eq!(skipped, 1);
    assert_eq!(journal.last_updated, 5);

    assert_eq!(find(&vec![entry(folder, true, false)], &current), vec![folder.to_string()]);
    assert!(find(&vec![entry(folder, false, false)], &current).is_empty());
    assert_eq!(
        header(Some(journal)),
        Some(("Встреча".to_string(), "2026-09-18T10:00:00Z".to_string()))
    );
    assert_eq!(header(Some(read(folder, vec![], 0).0)), None);
}

#[test]
fn a_folder_with_audio_and_no_journal_is_found() {
    let current = CurrentJournal::new();
    let entries = vec![
        entry("/r/rec-a", false, true),
        entry("/r/rec-b", false, false),
        entry("/r/rec-a/", false, true),
    ];
    assert_eq!(find(&entries, &current), vec!["/r/rec-a".to_string()]);
}

#[test]
fn a_verbatim_prefix_is_dropped_but_a_unc_path_is_kept() {
    assert_eq!(plain(r"\\?\C:\rec\m1"), r"C:\rec\m1");
    assert_eq!(plain(r"\\?\UNC\srv\share"), r"\\?\UNC\srv\share");
    assert_eq!(plain(r"C:\rec\m1"), r"C:\rec\m1");
}

#[test]
fn the_running_folder_is_known_by_either_of_its_names() {
    let mut current = CurrentJournal::new();
    begin(&mut current, r"\\?\C:\rec\m1".to_string());
    assert!(is_active(&current, r"C:\rec\m1"));
    assert!(is_active(&current, "C:/rec/m1/"));
    assert!(!is_active(&current, r"C:\rec\m2"));
}

fn journal_of(segments: Vec<TranscriptSegment>) -> Unsaved {
    let lines = segments.into_iter().map(|line| Some(Record::Segment(line))).collect();
    read("/r/m", lines, 0).0
}

#[test]
fn what_is_offered_for_recovery() {
    assert_eq!(folder_step(true, true), FolderStep::RemoveJournal);
    assert_eq!(folder_step(false, true), FolderStep::Skip);
    assert_eq!(folder_step(false, false), FolderStep::ReadJournal);
    let full = || Ok(Some(journal_of(vec![segment(1, "a")])));
    assert!(matches!(journal_step(full(), true, true), JournalStep::Offer(_)));
    assert!(matches!(journal_step(Ok(Some(journal_of(vec![]))), true, true), JournalStep::Skip));
    assert!(matches!(journal_step(Ok(None), true, false), JournalStep::Probe(..)));
    assert!(matches!(journal_step(Err("torn".to_string()), true, false), JournalStep::Probe(..)));
    assert!(matches!(journal_step(Err("torn".to_string()), false, false), JournalStep::Fail(e) if e == "torn"));
    assert_eq!(may_read(true, false).unwrap_err(), "the archive is locked");
    assert!(may_read(false, false).is_ok());
}

#[test]
fn the_newest_recording_is_offered_first() {
    let audio = AudioOnly { size_bytes: 1, duration_seconds: None, readable: true };
    let offer = |name: &str, at: i64| {
        audio_offer(name, String::new(), String::new(), at, audio)
    };
    let mut offers = Vec::new();
    for (name, at) in [("a", 5), ("b", 9), ("c", 5), ("d", 7)] {
        add_offer(&mut offers, offer(name, at));
    }
    let order: Vec<_> = offers.iter().map(|o| o.folder_path.as_str()).collect();
    assert_eq!(order, ["b", "d", "a", "c"]);
}

#[test]
fn only_a_meeting_of_ours_is_touched() {
    let roots = vec!["/r".to_string()];
    assert_eq!(checked_folder(Ok("/r/m".to_string()), &roots).unwrap(), "/r/m");
    assert_eq!(
        checked_folder(Ok("/r".to_string()), &roots).unwrap_err(),
        "That folder is not a recording folder"
    );
    assert_eq!(
        checked_folder(Err("gone".to_string()), &roots).unwrap_err(),
        "No such recording folder: gone"
    );
}

#[test]
fn concat_paths_escape_apostrophes() {
    let line = ffconcat_file_line("/Users/O'Brien/audio.mp4");
    assert_eq!(line, "file '/Users/O'\\''Brien/audio.mp4'\n");
}

#[test]
fn pieces_are_joined_in_order() {
    let pieces = || {
        ["p_2.flac", "concat_list.txt", "p_1.flac", "p_3.flac"].iter().map(|p| p.to_string()).collect()
    };
    let all = checkpoint_selection("/c", pieces(), None).unwrap();
    assert_eq!(all, vec!["p_1.flac", "p_2.flac", "p_3.flac"]);
    assert_eq!(checkpoint_selection("/c", pieces(), Some(2)).unwrap(), vec!["p_1.flac", "p_2.flac"]);
    assert_eq!(
        checkpoint_selection("/c", pieces(), Some(4)).unwrap_err(),
        "/c has 3 checkpoints; expected at least 4"
    );
    assert_eq!(
        checkpoint_selection("/c", vec![], None).unwrap_err(),
        "No checkpoints found in /c"
    );
    assert_eq!(
        concat_list(&vec!["/a".to_string(), "/b".to_string()]),
        "file '/a'\nfile '/b'\n"
    );
    let args = concat_args("list.txt", &mp4_aac(), "out.mp4");
    assert_eq!(args[..6], ["-f", "concat", "-safe", "0", "-i", "list.txt"]);
    assert_eq!(args[args.len() - 4..], ["-f", "mp4", "-y", "out.mp4"]);
    assert!(is_checkpoint_file("/c/p_1.flac"));
    assert!(is_checkpoint_file("/c/p_1.mp4"));
    assert!(!is_checkpoint_file("/c/p_1.MP4"));
    assert!(!is_checkpoint_file("/c/concat_list.txt"));
}

#[test]
fn recovered_audio_is_reported_as_it_is() {
    let tracks = vec!["/m/mic.mp4".to_string(), "/m/audio.mp4".to_string()];
    let status = recovered_tracks("/m", &tracks, Some(61_000)).unwrap();
    assert_eq!(status.status, "success");
    assert_eq!(status.audio_file_path.as_deref(), Some("/m/audio.mp4"));
    assert_eq!(status.estimated_duration_ms, 61_000);
    assert_eq!(status.message, "Recovered 2 interrupted track(s)");
    let status = recovered_tracks("/m", &vec!["/m/mic.mp4".to_string()], Some(5)).unwrap();
    assert_eq!(status.status, "partial");
    assert_eq!(status.audio_file_path, None);
    assert_eq!(status.estimated_duration_ms, 0);
    assert!(recovered_tracks("/m", &vec![], None).is_none());

    let whole = joined_pieces("/m", 4, &vec![]);
    assert_eq!(whole.estimated_duration_ms, 120_000_000_000);
    assert_eq!(whole.message, "Successfully recovered 4 audio chunks and available source tracks");
    let failures = vec![("mic".to_string(), "x".to_string()), ("system".to_string(), "y".to_string())];
    let partial = joined_pieces("/m", 4, &failures);
    assert_eq!(partial.status, "partial");
    assert_eq!(
        partial.message,
        "Recovered mixed audio; source-track recovery failed (mic: x; system: y)"
    );
    assert_eq!(mixed_not_joined("No checkpoints found in /c".to_string()).status, "none");
    assert_eq!(mixed_not_joined("Failed to merge".to_string()).status, "failed");
    assert_eq!(unrecovered(false, "No audio checkpoints found".to_string()).status, "none");
}

#[test]
fn a_recovery_names_tracks_before_it_looks_for_pieces() {
    let mut run = RecoveryRun::new("/m");
    assert_eq!(run.stage, RecoveryStage::Name);
    run.step(RecoveryEvent::Named(vec!["/m/audio.mp4".to_string()]));
    assert_eq!(run.stage, RecoveryStage::Measure);
    run.step(RecoveryEvent::Measured(Some(7)));
    assert_eq!(run.stage, RecoveryStage::Done);
    assert_eq!(run.outcome.as_ref().unwrap().estimated_duration_ms, 7);

    let mut partial = RecoveryRun::new("/m");
    partial.step(RecoveryEvent::Named(vec!["/m/mic.mp4".to_string()]));
    assert_eq!(partial.outcome.unwrap().status, "partial");
}

#[test]
fn a_recovery_from_pieces_reports_what_could_not_be_joined() {
    let mut run = RecoveryRun::new("/m");
    run.step(RecoveryEvent::Named(vec![]));
    assert_eq!(run.stage, RecoveryStage::Look);
    run.step(RecoveryEvent::Looked { by_track: true, present: true });
    assert_eq!(run.stage, RecoveryStage::JoinMixed { by_track: true });
    run.step(RecoveryEvent::Absent);
    assert_eq!(run.stage, RecoveryStage::JoinMixed { by_track: true }, "nobody asked");
    run.step(RecoveryEvent::Joined(Ok(3)));
    assert_eq!(run.stage, RecoveryStage::JoinMicrophone { expected: 3 });
    run.step(RecoveryEvent::Joined(Err("broken".to_string())));
    assert_eq!(run.stage, RecoveryStage::JoinSystem { expected: 3 });
    run.step(RecoveryEvent::Absent);
    let status = run.outcome.unwrap();
    assert_eq!(status.status, "partial");
    assert_eq!(status.chunk_count, 3);
    assert_eq!(
        status.message,
        "Recovered mixed audio; source-track recovery failed (mic: broken)"
    );

    let mut empty = RecoveryRun::new("/m");
    empty.step(RecoveryEvent::Named(vec![]));
    empty.step(RecoveryEvent::Looked { by_track: false, present: false });
    assert_eq!(empty.outcome.unwrap().message, "No audio checkpoints found");
    let mut failed = RecoveryRun::new("/m");
    failed.step(RecoveryEvent::Named(vec![]));
    failed.step(RecoveryEvent::Looked { by_track: false, present: true });
    failed.step(RecoveryEvent::Joined(Err("Failed to merge".to_string())));
    assert_eq!(failed.outcome.unwrap().status, "failed");
}

#[test]
fn a_track_replaces_the_old_one_only_once_it_was_joined() {
    let mut join = TrackJoin::new("/m/mic.mp4");
    let mut stages = vec![join.stage];
    while !matches!(join.stage, JoinStage::Joined | JoinStage::Failed) {
        let event = match join.stage {
            JoinStage::Check => JoinEvent::Exists(true),
            JoinStage::ClearTemporary => JoinEvent::Failed("was not there".to_string()),
            _ => JoinEvent::Done,
        };
        join.step(event);
        stages.push(join.stage);
    }
    assert_eq!(
        stages,
        vec![
            JoinStage::ClearTemporary,
            JoinStage::Concat,
            JoinStage::Check,
            JoinStage::Replace,
            JoinStage::Promote,
            JoinStage::Mark,
            JoinStage::Tidy,
            JoinStage::Joined,
        ]
    );
    assert!(join.error.is_none());

    let mut broken = TrackJoin::new("/m/mic.mp4");
    broken.step(JoinEvent::Done);
    broken.step(JoinEvent::Failed("FFmpeg concat failed: x".to_string()));
    assert_eq!(broken.stage, JoinStage::DropTemporary);
    broken.step(JoinEvent::Done);
    assert_eq!(broken.stage, JoinStage::Failed);
    assert_eq!(
        broken.error.as_deref(),
        Some("Failed to merge /m/mic.mp4: FFmpeg concat failed: x")
    );
    let mut unmarked = TrackJoin::new("o");
    unmarked.step(JoinEvent::Done);
    unmarked.step(JoinEvent::Done);
    unmarked.step(JoinEvent::Exists(false));
    assert_eq!(unmarked.stage, JoinStage::Promote);
    unmarked.step(JoinEvent::Done);
    unmarked.step(JoinEvent::Failed("full".to_string()));
    assert_eq!(unmarked.error.as_deref(), Some("Failed to mark recovered track: full"));
}

#[test]
fn there_is_audio_to_recover_in_either_shape() {
    let file = |name: &str, size: u64| FolderFile { name: name.to_string(), size };
    let pieces = vec!["/m/.checkpoints/p.flac".to_string()];
    assert!(has_audio_checkpoints(&vec![file("mic.mp4.part", 1)], None));
    assert!(has_audio_checkpoints(&vec![], Some(&pieces)));
    assert!(!has_audio_checkpoints(&vec![file("mic.mp4", 1)], Some(&vec!["x.txt".to_string()])));
    assert_eq!(last_written(&vec![3, -5, 9, 4]), 9);
    assert_eq!(last_written(&vec![-5]), -5);
    assert_eq!(last_written(&vec![]), 0);
    assert_eq!(
        decode_complaints("Fine\r\n[AAC @ 0] channel\r\nInvalid data\nall good\n"),
        vec!["[AAC @ 0] channel", "Invalid data"]
    );
}

#[test]
fn pieces_are_deleted_only_once_their_track_is_there() {
    assert_eq!(cleanup_checkpoints(false, true, true), Cleanup::Nothing);
    assert_eq!(cleanup_checkpoints(true, true, false), Cleanup::ByTrack);
    assert_eq!(cleanup_checkpoints(true, false, true), Cleanup::Everything);
    assert_eq!(cleanup_checkpoints(true, false, false), Cleanup::Nothing);
    assert!(track_cleanup(true, true));
    assert!(!track_cleanup(true, false));
    let file = |name: &str, size: u64| FolderFile { name: name.to_string(), size };
    assert!(has_unfinished_tracks(&vec![file("a.txt", 9), file("mic.mp4.part", 1)]));
    assert!(!has_unfinished_tracks(&vec![file("mic.mp4.part", 0), file("mic.mp4", 4)]));
}

#[test]
fn only_places_beside_the_application_are_considered() {
    let places = candidates("install/app", Platform::Other, true);
    assert_eq!(places[0], "install/app/ffmpeg");
    assert!(places.iter().all(|place| within(place, "install")));
    assert_eq!(places, vec!["install/app/ffmpeg", "install/app/lib/ffmpeg", "install/ffmpeg"]);
    assert_eq!(candidates(r"C:\app", Platform::Windows, false), vec![r"C:\app\ffmpeg.exe"]);
    assert_eq!(find_ffmpeg_path(&places, &vec![false, true, true]).as_deref(), Some("install/app/lib/ffmpeg"));
    assert_eq!(find_ffmpeg_path(&places, &vec![false, false, false]), None);
    assert_eq!(candidates("/", Platform::Windows, true), vec!["/ffmpeg.exe"]);
    assert_eq!(
        candidates("/A/MacOS", Platform::MacOs, false),
        vec!["/A/MacOS/ffmpeg", "/A/MacOS/../Resources/ffmpeg"]
    );

    // It is looked for once.
    let mut place = FfmpegPlace::new();
    let lib = Some("install/app/lib/ffmpeg");
    assert_eq!(place.find(&places, &vec![false, true, true]).as_deref(), lib);
    assert_eq!(place.find(&places, &vec![true, false, false]).as_deref(), lib);
    let mut missing = FfmpegPlace::new();
    assert_eq!(missing.find(&places, &vec![false, false, false]), None);
    assert_eq!(missing.find(&places, &vec![true, true, true]), None);
    assert_eq!(parent_of("/a/b/"), "/a");
    assert_eq!(parent_of("/a"), "/");
}

#[test]
fn a_folder_without_tracks_is_not_a_recording() {
    let none = vec![TrackSize { finished: 0, partial: 0 }; 3];
    let tracks = track_files("/m", &none);
    assert!(!looks_like_recording(&tracks, false));
    assert!(probe(&vec![], false, false, true, true, None).is_none());
}

#[test]
fn an_unfinished_track_counts_and_its_size_is_reported() {
    let sizes = vec![
        TrackSize { finished: 0, partial: 0 },
        TrackSize { finished: 0, partial: 700 },
        TrackSize { finished: 300, partial: 0 },
    ];
    let tracks = track_files("/m", &sizes);
    assert_eq!(tracks, vec!["/m/mic.mp4.part", "/m/system.mp4"]);
    assert!(looks_like_recording(&tracks, false));
    let audio = probe(&vec![700, 300], false, false, true, true, Some(61.5f64.to_bits())).unwrap();
    assert_eq!(audio.size_bytes, 1000);
    assert_eq!(audio.duration_seconds, Some(61.5f64.to_bits()));
    let unknown = probe(&vec![1], false, false, true, true, Some((-1.0f64).to_bits())).unwrap();
    assert_eq!(unknown.duration_seconds, None);
    let sealed = probe(&vec![1], false, true, true, false, None).unwrap();
    assert!(!sealed.readable);
}

#[test]
fn checkpoint_pieces_from_an_older_build_count() {
    let audio = probe(&vec![], true, true, false, false, None).unwrap();
    assert!(audio.readable);
    assert_eq!(audio.size_bytes, 0);
}

#[test]
fn another_archives_key_opens_with_its_password_or_its_recovery_code() {
    assert!(matches!(key_file_read(Ok(true)), KeyStep::TryPassword));
    assert!(matches!(password_tried(Unlocking::Opened), KeyStep::Opened));
    assert!(matches!(password_tried(Unlocking::WrongSecret), KeyStep::TryRecoveryCode));
    assert!(matches!(password_tried(Unlocking::Failed("e".to_string())), KeyStep::Fail(e) if e == "e"));
    assert!(matches!(recovery_code_tried(true), KeyStep::Opened));
    assert!(matches!(recovery_code_tried(false), KeyStep::Fail(e)
        if e == "The password or recovery code does not open this key file"));
    assert!(matches!(key_file_read(Ok(false)), KeyStep::Fail(e) if e == "There is no key file at that path"));
    assert!(matches!(key_file_read(Err("x".to_string())), KeyStep::Fail(e)
        if e == "Could not read the key file: x"));
}

#[test]
fn a_recording_is_restored_only_when_it_may_be() {
    assert!(may_touch(false, false, true, true).is_ok());
    assert_eq!(may_touch(true, false, false, false).unwrap_err(), "A recording is running");
    let restore = restore_recording_without_meeting;
    assert!(restore(false, false, false, false, false).is_ok());
    assert_eq!(restore(false, true, true, false, true).unwrap_err(), "A recording is running");
    assert_eq!(restore(false, false, true, false, true).unwrap_err(), "The archive is locked");
    assert_eq!(
        restore(false, false, true, true, true).unwrap_err(),
        "This recording is already in the library"
    );
    assert_eq!(rekey_target(true, true), Ok(true));
    assert_eq!(rekey_target(false, false), Ok(false));
    assert_eq!(rekey_target(false, true).unwrap_err(), "The archive is locked");
    assert_eq!(foreign_recording(false, true).unwrap_err(), "This recording is not encrypted");
    assert_eq!(foreign_recording(true, false).unwrap_err(), "This key does not open this recording");
    assert!(foreign_recording(true, true).is_ok());
    assert!(rekey_outcome(0).is_ok());
    assert_eq!(
        rekey_outcome(3).unwrap_err(),
        "3 file(s) could not be re-encrypted and were left as they were"
    );
}

#[test]
fn a_restored_meeting_keeps_what_it_remembers() {
    assert_eq!(restored_title(Some("  Встреча "), "x"), ("Встреча".to_string(), true));
    assert_eq!(restored_title(Some("  "), "x"), ("x".to_string(), false));
    assert_eq!(restored_title(None, "x"), ("x".to_string(), false));
    let described = Some(Moment { seconds: 1, nanos: 0 });
    let created = Some(Moment { seconds: 2, nanos: 0 });
    let journal = restored_start_of(Some("2026-08-30T14:00:00.5+02:00"), described, created);
    assert_eq!(journal, Some(Moment { seconds: 1_788_091_200, nanos: 500_000_000 }));
    assert_eq!(restored_start_of(Some("yesterday"), described, created), described);
    assert_eq!(restored_start_of(None, None, created), created);
    assert!(prepared_audio(None, Ok(()), true).is_ok());
    assert_eq!(prepared_audio(Some("m".to_string()), Ok(()), false).unwrap_err(), "m");
    assert_eq!(prepared_audio(None, Err("e".to_string()), false).unwrap_err(), "e");
    assert!(prepared_audio(None, Err("e".to_string()), true).unwrap_err().contains("different key"));
}

#[test]
fn recovery_keeps_the_finished_track_over_the_leftover() {
    assert_eq!(partial_path_for("/m/audio.mp4"), "/m/audio.mp4.part");
    assert_eq!(finished_name("audio.mp4.part").as_deref(), Some("audio.mp4"));
    assert!(matches!(recover_partial_tracks("audio.mp4.part", true, 10), PartialRecovery::Drop));
}

#[test]
fn recovery_ignores_a_track_that_holds_no_audio() {
    assert!(matches!(recover_partial_tracks("mic.mp4.part", false, 0), PartialRecovery::Drop));
    assert!(matches!(recover_partial_tracks("mic.mp4", false, 10), PartialRecovery::Leave));
    assert!(matches!(recover_partial_tracks(".part", false, 10), PartialRecovery::Leave));
    assert!(matches!(
        recover_partial_tracks("mic.mp4.part", false, 10),
        PartialRecovery::Publish(name) if name == "mic.mp4"
    ));
    assert!(publish_partial("/m/mic.mp4", 1).is_ok());
    assert_eq!(
        publish_partial("/m/mic.mp4", 0).unwrap_err(),
        "Nothing was encoded to /m/mic.mp4.part"
    );
}

#[test]
fn a_partial_name_is_put_behind_the_last_name() {
    assert_eq!(partial_path_for("/m/audio.mp4/"), "/m/audio.mp4.part");
    assert_eq!(partial_path_for("audio.mp4"), "audio.mp4.part");
    assert_eq!(partial_path_for(".."), "../.part");
}

#[test]
fn the_encoder_is_called_with_samples_from_a_pipe() {
    let args = encoder_args(16_000, 1, &flac());
    assert_eq!(
        args,
        [
            "-hide_banner", "-loglevel", "error", "-f", "f32le", "-ar", "16000", "-ac", "1", "-i",
            "pipe:0", "-c:a", "flac", "-sample_fmt", "s16", "-f", "flac", "pipe:1",
        ]
    );
}

#[test]
fn a_track_can_be_held_in_memory() {
    let mut sink = MemorySink::new();
    let total = drain_into(&mut sink, &vec![b"ab".to_vec(), b"c".to_vec()]).unwrap();
    assert_eq!(total, 3);
    assert_eq!(sink.bytes, b"abc");
    assert!(sink.finished);
}

#[test]
fn a_running_encoder_is_drained_piece_by_piece() {
    let mut drain = Drain::new();
    assert!(drain.has_room(usize::MAX));
    drain.step(DrainEvent::Got(5));
    assert_eq!(drain.stage, DrainStage::Write(5));
    drain.step(DrainEvent::Done);
    drain.step(DrainEvent::Got(7));
    drain.step(DrainEvent::Done);
    assert_eq!((drain.stage, drain.total), (DrainStage::Read, 12));
    assert!(!drain.has_room(usize::MAX));
    drain.step(DrainEvent::Got(0));
    assert_eq!(drain.stage, DrainStage::Close);
    drain.step(DrainEvent::Done);
    assert_eq!((drain.stage, drain.total), (DrainStage::Done, 12));

    let mut broken = Drain::new();
    broken.step(DrainEvent::Got(5));
    broken.step(DrainEvent::Failed("disk full".to_string()));
    assert_eq!((broken.stage, broken.total), (DrainStage::Failed, 0));
    assert_eq!(broken.error.as_deref(), Some("disk full"));
}

#[test]
fn the_length_of_a_recording_is_read_from_its_description() {
    let read = |text: &str| described_duration(text);
    assert_eq!(read(r#"{"duration_seconds": 61.5}"#).as_deref(), Some("61.5"));
    assert_eq!(read(r#"{"a": 1, "duration_seconds": 61}"#).as_deref(), Some("61"));
    assert_eq!(read(r#"{"duration_seconds": "61"}"#), None);
    assert_eq!(read(r#"{"duration": 61}"#), None);
    assert_eq!(read("[61]"), None);
    assert_eq!(read("{"), None);
}

#[test]
fn the_encoder_is_heard_out_but_not_forever() {
    let mut kept = vec![1u8; 8_192];
    keep_complaints(&mut kept, &[]);
    assert_eq!(kept.len(), 8_192);
    keep_complaints(&mut kept, &[2]);
    assert_eq!(kept.len(), 4_096);
    assert_eq!(kept[4_095], 2);

    let mut track = EncoderTrack::new("mic".to_string(), 16_000);
    track.wrote(32_000);
    assert_eq!(track.seconds_written(0), (32_000, 16_000));
    assert_eq!(track.seconds_written(2), (32_000, 32_000));
    assert!(track.may_write().is_ok());
    assert_eq!(
        track.finish(false, " bad codec \n").unwrap_err(),
        "FFmpeg failed to encode the mic track: bad codec"
    );
    assert_eq!(track.may_write().unwrap_err(), "Encoder for mic is already closed");
}
