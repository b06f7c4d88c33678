//! Where FFmpeg is.
//!
//! Only the copy that ships with the application is used: it is handed the decrypted
//! recording, so an arbitrary one found elsewhere is not good enough.

use crate::paths::{
    components, components_of, folder_of, inside, is_within, join, joined_path_is_one_deeper,
    lemma_name_behind_separator, parent_of, plain_name,
};
use crate::stream::Platform;
use crate::text::{chars_of, texts};
use vstd::prelude::*;

verus! {

/// What the program is called.
pub open spec fn executable_name(platform: Platform) -> Seq<char> {
    if platform is Windows {
        "ffmpeg.exe"@
    } else {
        "ffmpeg"@
    }
}

/// The places a bundled FFmpeg can be.
pub open spec fn bundled_places(exe_folder: Seq<char>, platform: Platform, development: bool) -> Seq<
    Seq<char>,
> {
    let name = executable_name(platform);
    let beside = seq![inside(exe_folder, name)];
    let packaged = match platform {
        Platform::MacOs => beside.push(inside(inside(exe_folder, "../Resources"@), name)),
        Platform::Windows => beside,
        Platform::Other => beside.push(inside(inside(exe_folder, "lib"@), name)),
    };
    if development && lies_in_a_folder(exe_folder) {
        packaged.push(inside(folder_of(exe_folder), name))
    } else {
        packaged
    }
}

/// There is a folder above: the path is neither empty nor the root.
pub open spec fn lies_in_a_folder(path: Seq<char>) -> bool {
    components(path).len() > 0 && components(path) != seq![seq!['/']]
}

fn has_folder_above(path: &str) -> (above: bool)
    ensures
        above == lies_in_a_folder(path@),
{
    let parts = components_of(&chars_of(path));
    let ghost spelt = components(path@);
    assert(spelt.len() == parts@.len());
    if parts.len() != 1 {
        return parts.len() > 0;
    }
    assert(spelt[0] == parts@[0]@);
    let root = parts[0].len() == 1 && parts[0][0] == '/';
    assert(root == (parts@[0]@ =~= seq!['/']));
    assert(root ==> spelt =~= seq![seq!['/']]);
    !root
}

/// The places a bundled FFmpeg can be, relative to the executable's folder. Test programs
/// run one level below where a development build puts it.
pub fn candidates(exe_folder: &str, platform: Platform, development: bool) -> (places: Vec<String>)
    ensures
        texts(places@) == bundled_places(exe_folder@, platform, development),
{
    let name = match platform {
        Platform::Windows => "ffmpeg.exe",
        _ => "ffmpeg",
    };
    let mut places: Vec<String> = Vec::new();
    places.push(join(exe_folder, name));
    match platform {
        Platform::MacOs => {
            let resources = join(exe_folder, "../Resources");
            places.push(join(resources.as_str(), name));
        },
        Platform::Windows => {},
        Platform::Other => {
            let lib = join(exe_folder, "lib");
            places.push(join(lib.as_str(), name));
        },
    }
    if development && has_folder_above(exe_folder) {
        let above = parent_of(exe_folder);
        places.push(join(above.as_str(), name));
    }
    assert(texts(places@) =~= bundled_places(exe_folder@, platform, development));
    places
}

/// The first of the places that holds a file. `present` says of each whether it does.
pub fn find_ffmpeg_path(places: &Vec<String>, present: &Vec<bool>) -> (found: Option<String>)
    requires
        places@.len() == present@.len(),
    ensures
        match found {
            Some(path) => exists|i: int|
                0 <= i < places@.len() && #[trigger] present@[i] && path@ == places@[i]@ && forall|
                    j: int,
                |
                    0 <= j < i ==> !#[trigger] present@[j],
            None => forall|i: int| 0 <= i < places@.len() ==> !#[trigger] present@[i],
        },
{
    let mut index: usize = 0;
    while index < places.len()
        invariant
            index <= places@.len(),
            places@.len() == present@.len(),
            forall|j: int| 0 <= j < index ==> !#[trigger] present@[j],
        decreases places@.len() - index,
    {
        if present[index] {
            assert(present@[index as int]);
            return Some(places[index].clone());
        }
        index += 1;
    }
    None
}

/// Where FFmpeg is, once it was looked for.
pub struct FfmpegPlace {
    pub looked: bool,
    pub place: Option<String>,
}

impl FfmpegPlace {
    /// The place as text.
    pub open spec fn known(&self) -> Option<Seq<char>> {
        match self.place {
            Some(path) => Some(path@),
            None => None,
        }
    }

    pub fn new() -> (place: FfmpegPlace)
        ensures
            !place.looked,
            place.place is None,
    {
        FfmpegPlace { looked: false, place: None }
    }

    /// The first of the places that holds a file. It is looked for once: every later answer
    /// is the first one, whatever is there by then.
    pub fn find(&mut self, places: &Vec<String>, present: &Vec<bool>) -> (found: Option<String>)
        requires
            places@.len() == present@.len(),
        ensures
            final(self).looked,
            old(self).looked ==> *final(self) == *old(self),
            match found {
                Some(path) => final(self).known() == Some(path@),
                None => final(self).known() is None,
            },
            !old(self).looked ==> match final(self).place {
                Some(path) => exists|i: int|
                    0 <= i < places@.len() && #[trigger] present@[i] && path@ == places@[i]@
                        && forall|j: int| 0 <= j < i ==> !#[trigger] present@[j],
                None => forall|i: int| 0 <= i < places@.len() ==> !#[trigger] present@[i],
            },
    {
        if !self.looked {
            self.place = find_ffmpeg_path(places, present);
            self.looked = true;
        }
        match &self.place {
            Some(path) => Some(path.clone()),
            None => None,
        }
    }
}

/// What is used lies beside the application or below it: nothing from elsewhere on the
/// machine is considered. A development build also looks in the folder above.
pub proof fn only_places_beside_the_application(
    exe_folder: Seq<char>,
    platform: Platform,
    development: bool,
    index: int,
)
    requires
        exe_folder.len() > 0,
        0 <= index < bundled_places(exe_folder, platform, development).len(),
    ensures
        ({
            let place = bundled_places(exe_folder, platform, development)[index];
            let packaged = bundled_places(exe_folder, platform, false).len();
            is_within(
                place,
                if index < packaged {
                    exe_folder
                } else {
                    folder_of(exe_folder)
                },
            )
        }),
{
    let name = executable_name(platform);
    let outer = components(exe_folder);
    reveal_strlit("ffmpeg.exe");
    reveal_strlit("ffmpeg");
    reveal_strlit("lib");
    reveal_strlit("../Resources");
    reveal_strlit("Resources");
    reveal_strlit("..");
    assert("ffmpeg.exe"@.len() == 10 && "ffmpeg"@.len() == 6 && "lib"@.len() == 3);
    assert("Resources"@.len() == 9 && ".."@.len() == 2);
    assert(seq!['.'].len() == 1);
    assert(plain_name("ffmpeg.exe"@));
    assert(plain_name("ffmpeg"@));
    assert(plain_name("lib"@));
    assert(plain_name(".."@));
    assert(plain_name("Resources"@));
    joined_path_is_one_deeper(exe_folder, name);
    if platform is Other {
        joined_path_is_one_deeper(exe_folder, "lib"@);
        let lib = inside(exe_folder, "lib"@);
        joined_path_is_one_deeper(lib, name);
        assert(components(inside(lib, name)).take(outer.len() as int) =~= outer);
    }
    if platform is MacOs {
        joined_path_is_one_deeper(exe_folder, ".."@);
        let above = inside(exe_folder, ".."@);
        assert(above.last() == '.');
        lemma_name_behind_separator(above, '/', "Resources"@);
        let resources = inside(exe_folder, "../Resources"@);
        assert("../Resources"@ =~= ".."@.push('/') + "Resources"@);
        assert(resources =~= above.push('/') + "Resources"@);
        joined_path_is_one_deeper(resources, name);
        assert(components(inside(resources, name)).take(outer.len() as int) =~= outer);
    }
    if index >= bundled_places(exe_folder, platform, false).len() {
        let above = folder_of(exe_folder);
        if above.len() > 0 {
            joined_path_is_one_deeper(above, name);
        } else {
            lemma_empty_path_has_no_components(above);
            assert(components(inside(above, name)).take(0) =~= components(above));
        }
    }
}

proof fn lemma_empty_path_has_no_components(path: Seq<char>)
    requires
        path.len() == 0,
    ensures
        components(path) == Seq::<Seq<char>>::empty(),
{
    reveal_with_fuel(crate::paths::naming, 3);
    let pieces = crate::text::cut(path, '/', crate::paths::other_separator(path));
    assert(pieces.len() == 1 && pieces[0].len() == 0);
}

/// The program beside the application comes first, under the name it has on the system; a
/// package keeps it in its resources on macOS and in its library folder elsewhere, and a
/// development build looks above last.
pub proof fn program_beside_the_application_comes_first(
    exe_folder: Seq<char>,
    platform: Platform,
    development: bool,
)
    ensures
        ({
            let places = bundled_places(exe_folder, platform, development);
            let packaged = bundled_places(exe_folder, platform, false);
            &&& platform is Windows ==> places[0] == inside(exe_folder, "ffmpeg.exe"@)
                && packaged.len() == 1
            &&& !(platform is Windows) ==> places[0] == inside(exe_folder, "ffmpeg"@)
                && packaged.len() == 2
            &&& platform is MacOs ==> places[1] == inside(
                inside(exe_folder, "../Resources"@),
                "ffmpeg"@,
            )
            &&& platform is Other ==> places[1] == inside(inside(exe_folder, "lib"@), "ffmpeg"@)
            &&& places.take(packaged.len() as int) == packaged
            &&& places.len() == packaged.len() + if development && components(exe_folder).len() > 0
                && components(exe_folder) != seq![seq!['/']] {
                1int
            } else {
                0
            }
            &&& places.len() > packaged.len() ==> places.last() == inside(
                folder_of(exe_folder),
                executable_name(platform),
            )
        }),
{
    let places = bundled_places(exe_folder, platform, development);
    let packaged = bundled_places(exe_folder, platform, false);
    assert(places.take(packaged.len() as int) =~= packaged);
}

} // verus!
