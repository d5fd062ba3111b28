//! Locations of the synthetic media and model files used by integration runs.

use vstd::prelude::*;
use vstd::string::*;

verus! {

/// `dir` followed by a slash and `name`.
pub open spec fn joined(dir: Seq<char>, name: Seq<char>) -> Seq<char> {
    dir + seq!['/'] + name
}

/// Appends `/name` to `dir`.
fn join(dir: String, name: &str) -> (path: String)
    ensures
        path@ == joined(dir@, name@),
{
    proof {
        reveal_strlit("/");
    }
    let with_slash = dir.concat("/");
    assert(with_slash@ =~= dir@ + seq!['/']);
    with_slash.concat(name)
}

/// The directory below `root` that holds the generated videos.
fn media_root(root: &str) -> (dir: String)
    ensures
        dir@ == joined(root@, "media"@),
{
    join(root.to_owned(), "media")
}

/// Path of the 640x480, 40 second, 10 fps clip below `root`.
pub fn long_small_video(root: &str) -> (path: String)
    ensures
        path@ == joined(joined(root@, "media"@), "synth_640x480_40secs_10fps.mp4"@),
{
    join(media_root(root), "synth_640x480_40secs_10fps.mp4")
}

/// Path of the 1280x720, 5 second, 30 fps clip below `root`.
pub fn short_large_video(root: &str) -> (path: String)
    ensures
        path@ == joined(joined(root@, "media"@), "synth_1280x720_5secs_30fps.mp4"@),
{
    join(media_root(root), "synth_1280x720_5secs_30fps.mp4")
}

/// Path of the quantised segmentation model below `root`.
pub fn fcn_resnet50_12_int8_onnx(root: &str) -> (path: String)
    ensures
        path@ == joined(joined(root@, "models"@), "fcn-resnet50-12-int8.onnx"@),
{
    join(join(root.to_owned(), "models"), "fcn-resnet50-12-int8.onnx")
}

} // verus!
