//! Where the pictures go.

use vstd::prelude::*;
use vstd::string::StringExecFns;
use std::path::Path;
use std::path::PathBuf;

verus! {

/// `Path::file_stem`: the last component of `path` without its extension,
/// or `None` where the path has no file name. How a path falls into
/// components is the platform's matter, so nothing is claimed of the result.
#[verifier::external_body]
fn file_stem(path: &str) -> (r: Option<String>) {
    match Path::new(path).file_stem() {
        Some(stem) => Some(stem.to_string_lossy().into_owned()),
        None => None,
    }
}

/// `PathBuf::set_file_name`: `path` with its last component replaced by
/// `name`. Nothing is claimed of the result.
#[verifier::external_body]
fn with_file_name(path: &str, name: &str) -> (r: String) {
    let mut changed = PathBuf::from(path);
    changed.set_file_name(name);
    changed.to_string_lossy().into_owned()
}

/// The name of the picture that belongs to a report: the report's stem,
/// an underscore, the suffix, and `.png`.
pub open spec fn png_name(stem: Seq<char>, suffix: Seq<char>) -> Seq<char> {
    stem + "_"@ + suffix + ".png"@
}

/// The file name of the picture `suffix` beside a report with the stem
/// `stem`.
pub fn derived_png_name(stem: &str, suffix: &str) -> (r: String)
    ensures
        r@ == png_name(stem@, suffix@),
{
    String::from_str(stem).concat("_").concat(suffix).concat(".png")
}

/// The path of a picture: `file` where it is given, else a file beside the
/// report `json`, named after it and `suffix`, else none. None too where
/// `json` has no file name to derive one from.
pub fn calculate_png_path(json: &Option<String>, file: &Option<String>, suffix: &str) -> (r: Option<
    String,
>)
    ensures
        match *file {
            Some(given) => r == Some(given),
            None => json is None ==> r is None,
        },
{
    match file {
        Some(given) => Some(given.clone()),
        None => match json {
            Some(report) => match file_stem(report.as_str()) {
                Some(stem) => {
                    let name = derived_png_name(stem.as_str(), suffix);
                    Some(with_file_name(report.as_str(), name.as_str()))
                },
                None => None,
            },
            None => None,
        },
    }
}

} // verus!
