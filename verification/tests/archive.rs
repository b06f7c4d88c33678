use std::collections::BTreeMap;
use talkkeeper_audio::archive_encryption::{
    convert_all, count_recordings, is_recording_file, mismatch_text, recording_folders,
    recordings_under, recover_interrupted, rekey_folder, with_suffix, with_suffix_removed,
    ArchiveEntry, Conversion, ConversionEvent, ConversionStage, Direction, Recovery, Visited,
    IN_PROGRESS_SUFFIX, SUPERSEDED_SUFFIX,
};
use talkkeeper_audio::archive_pass::{ArchivePass, PassEvent, PassStep};
use talkkeeper_audio::digest::{digest_of, AudioDigest};
use talkkeeper_audio::encrypted_audio::{into_file, open, read_all, AudioSource};

fn visited(files: &[(&str, bool, Option<&str>)]) -> Vec<Visited> {
    files
        .iter()
        .map(|(path, encrypted, error)| Visited {
            path: path.to_string(),
            encrypted: *encrypted,
            error: error.map(str::to_string),
        })
        .collect()
}

#[test]
fn a_pass_reports_what_it_did() {
    let files = visited(&[
        ("audio.mp4", false, None),
        ("mic.mp4", true, None),
        ("system.mp4", false, Some("disk full")),
    ]);
    let report = convert_all(&files, Direction::Encrypt);
    assert_eq!(report.converted, 1);
    assert_eq!(report.untouched, 1);
    assert_eq!(report.failed, vec![("system.mp4".to_string(), "disk full".to_string())]);
    assert!(!report.is_complete());
    assert_eq!(
        report.summary(Direction::Encrypt),
        "Encrypt: 1 converted, 1 already so, 1 failed"
    );

    let report = convert_all(&files, Direction::Decrypt);
    assert_eq!((report.converted, report.untouched), (1, 2));
    assert!(report.is_complete());
    assert_eq!(
        report.summary(Direction::Decrypt),
        "Decrypt: 1 converted, 2 already so, 0 failed"
    );
}

#[test]
fn a_second_pass_has_nothing_left_to_do() {
    let files = visited(&[
        ("audio.mp4", true, None),
        ("mic.mp4", true, None),
        ("system.mp4", true, None),
        ("mic.flac", true, None),
    ]);
    let again = convert_all(&files, Direction::Encrypt);
    assert_eq!(again.converted, 0);
    assert_eq!(again.untouched, files.len());
}

#[test]
fn only_encrypted_files_are_brought_under_another_key() {
    let files = visited(&[("a.mp4", true, None), ("b.mp4", false, None), ("c.mp4", true, Some("x"))]);
    let report = rekey_folder(&files);
    assert_eq!((report.converted, report.untouched, report.failed.len()), (1, 1, 1));
    let counts = count_recordings(&vec![true, false, true]);
    assert_eq!((counts.encrypted, counts.plaintext), (2, 1));
}

#[test]
fn what_follows_the_password() {
    for name in ["audio.mp4", "mic.FLAC", "own-speech.tkgate", "import.webm"] {
        assert!(is_recording_file(name), "{name}");
    }
    for name in [
        "metadata.json",
        "audio.mp4.part",
        "own-speech.tkgate.part",
        "audio.mp4.tkconv",
        "audio.mp4.tkold",
        "mp4",
        ".mp4",
    ] {
        assert!(!is_recording_file(name), "{name}");
    }
}

#[test]
fn recordings_are_listed_in_order_and_once() {
    let files = ["/r/a b/mic.mp4", "/r/a/mic.mp4", "/r/a/notes.txt", "/r/a//mic.mp4", "/r/a/audio.mp4"];
    let found = recordings_under(files.iter().map(|file| file.to_string()).collect());
    assert_eq!(found, vec!["/r/a/audio.mp4", "/r/a/mic.mp4", "/r/a b/mic.mp4"]);
    let entry = |path: &str, is_dir, has_work| ArchiveEntry { path: path.to_string(), is_dir, has_work };
    let entries = vec![entry("/r/m", true, true), entry("/r/x.txt", false, false), entry("/r/a", true, false)];
    assert_eq!(recording_folders(&entries), vec!["/r/a", "/r/m", "/r/m/.work"]);
}

#[test]
fn suffixes_go_on_and_come_off() {
    let longer = with_suffix("/r/m/audio.mp4", SUPERSEDED_SUFFIX);
    assert_eq!(longer, "/r/m/audio.mp4.tkold");
    assert_eq!(with_suffix_removed(&longer, SUPERSEDED_SUFFIX), "/r/m/audio.mp4");
    assert_eq!(with_suffix_removed("/r/m/audio.mp4", SUPERSEDED_SUFFIX), "/r/m/audio.mp4");
    assert_eq!(with_suffix("x", IN_PROGRESS_SUFFIX), "x.tkconv");
}

#[test]
fn what_a_crash_left_is_put_right() {
    assert_eq!(recover_interrupted("audio.mp4.tkconv", true), Recovery::Discard);
    assert_eq!(recover_interrupted("mic.mp4.tkold", false), Recovery::PutBack);
    assert_eq!(recover_interrupted("mic.mp4.tkold", true), Recovery::DropSuperseded);
    assert_eq!(recover_interrupted("mic.mp4", true), Recovery::Leave);
}

#[test]
fn a_crash_in_the_middle_leaves_the_recording_where_it_was() {
    let audio: Vec<u8> = (0..4000u32).map(|index| (index % 251) as u8).collect();
    let track = "/archive/rec/audio.mp4".to_string();
    let moved_aside = "/archive/rec/mic.mp4".to_string();
    let mut disk: BTreeMap<String, Vec<u8>> = BTreeMap::new();
    disk.insert(track.clone(), audio.clone());
    disk.insert(with_suffix(&track, IN_PROGRESS_SUFFIX), b"unfinished".to_vec());
    disk.insert(with_suffix(&moved_aside, SUPERSEDED_SUFFIX), audio.clone());

    let paths: Vec<String> = disk.keys().cloned().collect();
    for path in paths {
        let original = with_suffix_removed(&path, SUPERSEDED_SUFFIX);
        match recover_interrupted(&path, original != path && disk.contains_key(&original)) {
            Recovery::Leave => {}
            Recovery::Discard | Recovery::DropSuperseded => {
                disk.remove(&path);
            }
            Recovery::PutBack => {
                let bytes = disk.remove(&path).unwrap();
                disk.insert(original, bytes);
            }
        }
    }

    assert!(!disk.contains_key(&with_suffix(&track, IN_PROGRESS_SUFFIX)));
    assert_eq!(disk[&track], audio);
    assert!(!disk.contains_key(&with_suffix(&moved_aside, SUPERSEDED_SUFFIX)));
    assert_eq!(disk[&moved_aside], audio, "the recording that was moved aside was not put back");
}

/// The three files of a recording under conversion, and how a crash leaves them.
#[derive(Clone, Debug, PartialEq)]
struct Disk {
    file: Option<Vec<u8>>,
    replacement: Option<Vec<u8>>,
    superseded: Option<Vec<u8>>,
}

impl Disk {
    fn recovered(mut self) -> Disk {
        self.replacement = None;
        if self.file.is_none() {
            self.file = self.superseded.take();
        }
        self.superseded = None;
        self
    }
}

fn digest(bytes: &[u8]) -> [u8; 32] {
    let mut digest = AudioDigest::new();
    digest.update(bytes);
    digest.finish()
}

#[test]
fn every_step_of_a_conversion_can_be_interrupted() {
    let audio = b"a session that cannot be recorded again".to_vec();
    let mut disk = Disk { file: Some(audio.clone()), replacement: Some(vec![1]), superseded: None };
    let mut conversion = Conversion::new();
    let mismatch = mismatch_text(false);
    let mut stages = Vec::new();
    loop {
        assert_eq!(disk.clone().recovered().file, Some(audio.clone()), "{:?}", conversion.stage);
        stages.push(conversion.stage);
        let event = match conversion.stage {
            ConversionStage::DropStale => {
                disk.replacement = None;
                ConversionEvent::Done
            }
            ConversionStage::Write => {
                disk.replacement = Some(b"half".to_vec());
                assert_eq!(disk.clone().recovered().file, Some(audio.clone()));
                disk.replacement = Some(audio.clone());
                ConversionEvent::Digest(digest(&audio))
            }
            ConversionStage::ReadBack => {
                ConversionEvent::Digest(digest(disk.replacement.as_ref().unwrap()))
            }
            ConversionStage::DropOld => ConversionEvent::Failed("was not there".to_string()),
            ConversionStage::MoveAside => {
                disk.superseded = disk.file.take();
                ConversionEvent::Done
            }
            ConversionStage::MoveIn => {
                disk.file = disk.replacement.take();
                ConversionEvent::Done
            }
            ConversionStage::DropOriginal => {
                disk.superseded = None;
                ConversionEvent::Done
            }
            ConversionStage::Done => break,
            other => panic!("{other:?}"),
        };
        conversion.step(event, mismatch);
    }
    assert_eq!(stages.len(), 8);
    assert_eq!(disk, Disk { file: Some(audio), replacement: None, superseded: None });
    assert!(conversion.error.is_none());
}

#[test]
fn a_replacement_that_does_not_hold_the_same_audio_is_dropped() {
    let mut conversion = Conversion::new();
    let mismatch = mismatch_text(true);
    conversion.step(ConversionEvent::Done, mismatch);
    conversion.step(ConversionEvent::Digest([1; 32]), mismatch);
    conversion.step(ConversionEvent::Digest([2; 32]), mismatch);
    assert_eq!(conversion.stage, ConversionStage::DropReplacement);
    conversion.step(ConversionEvent::Done, mismatch);
    assert_eq!(conversion.stage, ConversionStage::Failed);
    assert_eq!(
        conversion.error.as_deref(),
        Some("the re-encrypted file does not hold the same audio")
    );
}

#[test]
fn a_replacement_that_cannot_be_moved_gives_the_original_back() {
    let mut conversion = Conversion::new();
    let mismatch = mismatch_text(false);
    conversion.step(ConversionEvent::Failed("no stale one".to_string()), mismatch);
    conversion.step(ConversionEvent::Digest([1; 32]), mismatch);
    conversion.step(ConversionEvent::Digest([1; 32]), mismatch);
    conversion.step(ConversionEvent::Done, mismatch);
    conversion.step(ConversionEvent::Done, mismatch);
    assert_eq!(conversion.stage, ConversionStage::MoveIn);
    conversion.step(ConversionEvent::Failed("in use".to_string()), mismatch);
    assert_eq!(conversion.stage, ConversionStage::PutBack);
    conversion.step(ConversionEvent::Done, mismatch);
    assert_eq!(conversion.stage, ConversionStage::Failed);
    assert_eq!(conversion.error.as_deref(), Some("in use"));
}

#[test]
fn the_digest_does_not_depend_on_the_pieces() {
    // The well-known digest of these three letters.
    let expected: [u8; 32] = [
        0xba, 0x78, 0x16, 0xbf, 0x8f, 0x01, 0xcf, 0xea, 0x41, 0x41, 0x40, 0xde, 0x5d, 0xae, 0x22,
        0x23, 0xb0, 0x03, 0x61, 0xa3, 0x96, 0x17, 0x7a, 0x9c, 0xb4, 0x10, 0xff, 0x61, 0xf2, 0x00,
        0x15, 0xad,
    ];
    assert_eq!(digest_of(&vec![b"abc".to_vec()]), expected);
    assert_eq!(digest_of(&vec![b"a".to_vec(), vec![], b"bc".to_vec()]), expected);
}

#[test]
fn an_encrypted_recording_is_refused_while_the_archive_is_locked() {
    assert_eq!(open("/r/audio.mp4", false, false), Ok(false));
    assert_eq!(open("/r/audio.mp4", true, true), Ok(true));
    let error = open("/r/audio.mp4", true, false).unwrap_err();
    assert!(error.contains("locked"), "unhelpful error: {error}");
    assert_eq!(
        error,
        "/r/audio.mp4 is encrypted and the archive is locked — unlock it to open this recording"
    );
}

#[test]
fn new_files_are_encrypted_whenever_there_is_a_key() {
    assert_eq!(into_file(false, false), Ok(false));
    assert_eq!(into_file(true, true), Ok(true));
    assert_eq!(
        into_file(true, false).unwrap_err(),
        "the archive was locked while a file was being opened"
    );
    assert!(AudioSource::Encrypted(3).was_encrypted());
    assert!(AudioSource::Plain(0).is_empty());
    assert_eq!(AudioSource::Plain(7).len(), 7);
    assert_eq!(read_all(&vec![b"a whole ".to_vec(), b"recording".to_vec()]), b"a whole recording");
}

/// A pass over files that look so, in which those that are named fail. Returns what was said
/// of how far it is, and the report.
fn pass_over(
    direction: Direction,
    files: &mut BTreeMap<String, bool>,
    failing: &[&str],
) -> (Vec<(usize, usize)>, talkkeeper_audio::archive_encryption::ConversionReport) {
    let names = files.keys().cloned().collect();
    let mut said = Vec::new();
    let (mut pass, mut step) = ArchivePass::begin(direction, names);
    loop {
        let event = match step {
            PassStep::Look { done, total } => {
                said.push((done, total));
                PassEvent::Looked(files[&pass.files[done]])
            }
            PassStep::Convert(index) => {
                let name = pass.files[index].clone();
                if failing.contains(&name.as_str()) {
                    PassEvent::Converted(Err("disk full".to_string()))
                } else {
                    files.insert(name, matches!(direction, Direction::Encrypt));
                    PassEvent::Converted(Ok(()))
                }
            }
            PassStep::Finish { done, total, report } => {
                said.push((done, total));
                return (said, report);
            }
        };
        step = pass.step(event);
    }
}

#[test]
fn a_pass_says_how_far_it_is_before_each_file_and_after_the_last() {
    let mut files: BTreeMap<String, bool> =
        [("a.mp4", false), ("b.mp4", true), ("c.mp4", false)]
            .into_iter()
            .map(|(name, encrypted)| (name.to_string(), encrypted))
            .collect();
    let (said, report) = pass_over(Direction::Encrypt, &mut files, &["c.mp4"]);
    assert_eq!(said, vec![(0, 3), (1, 3), (2, 3), (3, 3)]);
    assert_eq!((report.converted, report.untouched, report.failed.len()), (1, 1, 1));
    assert_eq!(report.failed[0], ("c.mp4".to_string(), "disk full".to_string()));

    let (said, report) = pass_over(Direction::Encrypt, &mut BTreeMap::new(), &[]);
    assert_eq!(said, vec![(0, 0)]);
    assert!(report.is_complete());
}

#[test]
fn a_complete_pass_leaves_nothing_for_the_next_and_is_undone_by_the_other() {
    let plain: BTreeMap<String, bool> =
        ["a.mp4", "b.mp4"].into_iter().map(|name| (name.to_string(), false)).collect();
    let mut files = plain.clone();
    let (_, sealed) = pass_over(Direction::Encrypt, &mut files, &[]);
    assert!(sealed.is_complete() && sealed.converted == 2);
    let (_, again) = pass_over(Direction::Encrypt, &mut files, &[]);
    assert_eq!((again.converted, again.untouched), (0, 2));
    let (_, opened) = pass_over(Direction::Decrypt, &mut files, &[]);
    assert!(opened.is_complete() && opened.converted == 2);
    assert_eq!(files, plain);
    assert_eq!(count_recordings(&files.values().copied().collect()).encrypted, 0);
}

#[test]
fn the_order_of_folders_changes_no_count() {
    let once = vec!["/a/x/audio.mp4".to_string(), "/b/y/mic.mp4".to_string()];
    let again = vec![
        "/b/y/mic.mp4".to_string(),
        "/a/x/audio.mp4".to_string(),
        "/b/y/mic.mp4".to_string(),
        "/a/x/notes.txt".to_string(),
    ];
    assert_eq!(recordings_under(once.clone()), once);
    assert_eq!(recordings_under(again), once);
}
