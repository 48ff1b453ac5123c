use vstd::prelude::*;

use crate::glossary::{lower_of, lowercase};
use crate::types::ProjectType;

verus! {

/// Extensions of video files, in lower case.
pub open spec fn video_extension(e: Seq<char>) -> bool {
    e == "mp4"@ || e == "mkv"@ || e == "mov"@ || e == "avi"@ || e == "webm"@
}

/// Extensions of subtitle files, in lower case.
pub open spec fn subtitle_extension(e: Seq<char>) -> bool {
    e == "srt"@ || e == "vtt"@ || e == "ass"@ || e == "ssa"@
}

/// What a file with extension `ext` is taken for when imported.
pub open spec fn media_type_of(ext: Option<Seq<char>>) -> ProjectType {
    match ext {
        Some(e) => if video_extension(lower_of(e)) {
            ProjectType::Video
        } else if subtitle_extension(lower_of(e)) {
            ProjectType::Subtitle
        } else {
            ProjectType::Config
        },
        None => ProjectType::Config,
    }
}

/// Project folder that holds files of each type.
pub open spec fn subdir_of(t: ProjectType) -> Seq<char> {
    match t {
        ProjectType::Video => "video"@,
        ProjectType::Subtitle => "subtitles"@,
        ProjectType::Config => "config"@,
    }
}

fn is_one_of(e: &String, choices: &[&str]) -> (r: bool)
    ensures
        r == exists|i: int| 0 <= i < choices@.len() && e@ == (#[trigger] choices@[i])@,
{
    let mut i: usize = 0;
    while i < choices.len()
        invariant
            i <= choices@.len(),
            forall|j: int| 0 <= j < i ==> e@ != (#[trigger] choices@[j])@,
        decreases choices@.len() - i,
    {
        if *e == choices[i].to_string() {
            return true;
        }
        i = i + 1;
    }
    false
}

/// Whether a lower-case extension is that of a video.
pub fn known_video_extension(l: &String) -> (r: bool)
    ensures
        r == video_extension(l@),
{
    let choices = ["mp4", "mkv", "mov", "avi", "webm"];
    let r = is_one_of(&l, &choices);
    proof {
        if video_extension(l@) {
            if l@ == "mp4"@ { assert(l@ == choices@[0]@); }
            if l@ == "mkv"@ { assert(l@ == choices@[1]@); }
            if l@ == "mov"@ { assert(l@ == choices@[2]@); }
            if l@ == "avi"@ { assert(l@ == choices@[3]@); }
            if l@ == "webm"@ { assert(l@ == choices@[4]@); }
        }
    }
    r
}

/// Whether a file extension, in any case, is that of a video.
pub fn is_video_extension(ext: &str) -> (r: bool)
    ensures
        r == video_extension(lower_of(ext@)),
{
    known_video_extension(&lowercase(ext))
}

/// Whether a lower-case extension is that of a subtitle file.
pub fn known_subtitle_extension(l: &String) -> (r: bool)
    ensures
        r == subtitle_extension(l@),
{
    let choices = ["srt", "vtt", "ass", "ssa"];
    let r = is_one_of(&l, &choices);
    proof {
        if subtitle_extension(l@) {
            if l@ == "srt"@ { assert(l@ == choices@[0]@); }
            if l@ == "vtt"@ { assert(l@ == choices@[1]@); }
            if l@ == "ass"@ { assert(l@ == choices@[2]@); }
            if l@ == "ssa"@ { assert(l@ == choices@[3]@); }
        }
    }
    r
}

/// Whether a file extension, in any case, is that of a subtitle file.
pub fn is_subtitle_extension(ext: &str) -> (r: bool)
    ensures
        r == subtitle_extension(lower_of(ext@)),
{
    known_subtitle_extension(&lowercase(ext))
}

/// The type of an imported file, from its extension (`None`: it has none).
pub fn classify_media(ext: Option<&str>) -> (r: ProjectType)
    ensures
        r == media_type_of(
            match ext {
                Some(e) => Some(e@),
                None => None,
            },
        ),
{
    match ext {
        Some(e) => if is_video_extension(e) {
            ProjectType::Video
        } else if is_subtitle_extension(e) {
            ProjectType::Subtitle
        } else {
            ProjectType::Config
        },
        None => ProjectType::Config,
    }
}

/// The project folder that files of type `t` are copied into.
pub fn media_subdir(t: ProjectType) -> (r: &'static str)
    ensures
        r@ == subdir_of(t),
{
    match t {
        ProjectType::Video => "video",
        ProjectType::Subtitle => "subtitles",
        ProjectType::Config => "config",
    }
}

} // verus!
