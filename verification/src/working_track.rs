//! Where the tracks that later passes read are kept, beside the recording.

use crate::paths::{inside, join};
use crate::text::joined;
use vstd::prelude::*;

verus! {

/// The rate that the working tracks are kept at.
pub const WORKING_SAMPLE_RATE: u32 = 16_000;

/// Name of the folder with derived audio inside a meeting's folder.
pub const WORKING_DIR: &'static str = ".work";

/// Where the derived audio of a meeting is kept.
pub fn working_dir(meeting_folder: &str) -> (folder: String)
    ensures
        folder@ == inside(meeting_folder@, WORKING_DIR@),
{
    join(meeting_folder, WORKING_DIR)
}

/// Where the working track with this name is kept.
pub fn working_track_path(meeting_folder: &str, track: &str) -> (path: String)
    ensures
        path@ == inside(inside(meeting_folder@, WORKING_DIR@), track@ + ".flac"@),
{
    let folder = working_dir(meeting_folder);
    let name = joined(track, ".flac");
    join(folder.as_str(), name.as_str())
}

} // verus!
