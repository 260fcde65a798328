//! Where the bundled ffmpeg and ffprobe live: next to the main executable in
//! a release, in the repository's `binaries/` directory (named with the
//! target triple) in a development build. Finding the executable and
//! reading the build's environment are the caller's.
use vstd::prelude::*;

use crate::text::{push_str, string_from_chars};

verus! {

/// The name for `Path::new(dir).join(file)`, as text.
pub uninterp spec fn path_join_of(dir: Seq<char>, file: Seq<char>) -> Seq<char>;

/// `Path::new(dir).join(file)`, as text.
///
/// Trusted: the result is `path_join_of` of the two texts (both are UTF-8,
/// so the joined path is too and its lossy text is exact).
#[verifier::external_body]
fn path_join(dir: &str, file: &str) -> (r: String)
    ensures
        r@ == path_join_of(dir@, file@),
{
    std::path::Path::new(dir).join(file).to_string_lossy().into_owned()
}

/// Where a release finds the bundled `name`: the file `<name><suffix>` in
/// the executable's directory, or the bare file name when that directory is
/// unknown.
pub open spec fn bundled_path(exe_dir: Option<Seq<char>>, name: Seq<char>, suffix: Seq<char>) -> Seq<
    char,
> {
    match exe_dir {
        Some(d) => path_join_of(d, name + suffix),
        None => name + suffix,
    }
}

/// Where a development build finds `name`: `binaries/<name>-<triple><suffix>`
/// under the crate's manifest directory.
pub open spec fn dev_path(
    manifest_dir: Seq<char>,
    triple: Seq<char>,
    name: Seq<char>,
    suffix: Seq<char>,
) -> Seq<char> {
    path_join_of(path_join_of(manifest_dir, "binaries"@), name + "-"@ + triple + suffix)
}

fn concat(a: &str, b: &str) -> (r: String)
    ensures
        r@ == a@ + b@,
{
    let mut v: Vec<char> = Vec::new();
    push_str(&mut v, a);
    push_str(&mut v, b);
    string_from_chars(&v)
}

/// The bundled binary `name` in a release.
pub fn bundled_binary(exe_dir: Option<&str>, name: &str, exe_suffix: &str) -> (r: String)
    ensures
        r@ == bundled_path(
            match exe_dir {
                Some(d) => Some(d@),
                None => None,
            },
            name@,
            exe_suffix@,
        ),
{
    let file = concat(name, exe_suffix);
    match exe_dir {
        Some(d) => path_join(d, file.as_str()),
        None => file,
    }
}

/// The binary `name` of a development build.
pub fn dev_binary(manifest_dir: &str, triple: &str, name: &str, exe_suffix: &str) -> (r: String)
    ensures
        r@ == dev_path(manifest_dir@, triple@, name@, exe_suffix@),
{
    let dir = path_join(manifest_dir, "binaries");
    let mut v: Vec<char> = Vec::new();
    push_str(&mut v, name);
    push_str(&mut v, "-");
    push_str(&mut v, triple);
    push_str(&mut v, exe_suffix);
    let file = string_from_chars(&v);
    path_join(dir.as_str(), file.as_str())
}

/// The bundled ffmpeg of a release.
pub fn ffmpeg_path(exe_dir: Option<&str>, exe_suffix: &str) -> (r: String)
    ensures
        r@ == bundled_path(
            match exe_dir {
                Some(d) => Some(d@),
                None => None,
            },
            "ffmpeg"@,
            exe_suffix@,
        ),
{
    bundled_binary(exe_dir, "ffmpeg", exe_suffix)
}

/// The bundled ffprobe of a release.
pub fn ffprobe_path(exe_dir: Option<&str>, exe_suffix: &str) -> (r: String)
    ensures
        r@ == bundled_path(
            match exe_dir {
                Some(d) => Some(d@),
                None => None,
            },
            "ffprobe"@,
            exe_suffix@,
        ),
{
    bundled_binary(exe_dir, "ffprobe", exe_suffix)
}

} // verus!
