//! External programs: whether one is installed, and what to tell the user
//! when it is not.
use vstd::prelude::*;
use crate::text::str_eq;

verus! {

/// `which::which(name).is_ok()`: whether an executable of that name is on
/// the search path. Nothing is claimed of the result: it depends on the
/// environment and on what is on disk.
#[verifier::external_body]
fn executable_on_path(name: &str) -> (found: bool) {
    which::which(name).is_ok()
}

/// The views of a list of strings.
pub open spec fn string_views(v: Seq<String>) -> Seq<Seq<char>> {
    Seq::new(v.len(), |i: int| v[i]@)
}

/// How to install a tool: Homebrew for ffmpeg and tesseract, a generic hint otherwise.
pub open spec fn spec_install_hint(name: Seq<char>) -> Seq<char> {
    if name == "ffmpeg"@ {
        "brew install ffmpeg"@
    } else if name == "tesseract"@ {
        "brew install tesseract"@
    } else {
        "install "@ + name
    }
}

/// How to install a tool.
pub fn install_hint(name: &str) -> (r: String)
    ensures
        r@ == spec_install_hint(name@),
{
    if str_eq(name, "ffmpeg") {
        String::from_str("brew install ffmpeg")
    } else if str_eq(name, "tesseract") {
        String::from_str("brew install tesseract")
    } else {
        let mut r = String::from_str("install ");
        r.append(name);
        r
    }
}

/// A required tool is not installed.
#[derive(Debug)]
pub struct MissingDependency {
    pub name: String,
    pub install: String,
}

/// The outcome of a dependency check once it is known whether the tool was found.
pub fn dependency_result(name: &str, found: bool) -> (r: Result<(), MissingDependency>)
    ensures
        r is Ok <==> found,
        r matches Err(e) ==> e.name@ == name@ && e.install@ == spec_install_hint(name@),
{
    if found {
        Ok(())
    } else {
        Err(MissingDependency { name: String::from_str(name), install: install_hint(name) })
    }
}

/// Check that a required external tool is installed; the error says how to
/// install it. Whether the tool is found depends on the machine.
pub fn check_dependency(name: &str) -> (r: Result<(), MissingDependency>)
    ensures
        r matches Err(e) ==> e.name@ == name@ && e.install@ == spec_install_hint(name@),
{
    let found = executable_on_path(name);
    dependency_result(name, found)
}

/// The transcriber to run: `whisper` when it is installed, else `whisper-cpp`.
pub open spec fn spec_pick_whisper(whisper: bool, whisper_cpp: bool) -> Option<Seq<char>> {
    if whisper {
        Some("whisper"@)
    } else if whisper_cpp {
        Some("whisper-cpp"@)
    } else {
        None
    }
}

/// The transcriber to run, given which ones are installed.
pub fn pick_whisper(whisper: bool, whisper_cpp: bool) -> (r: Option<&'static str>)
    ensures
        r.deep_view() == spec_pick_whisper(whisper, whisper_cpp),
{
    if whisper {
        Some("whisper")
    } else if whisper_cpp {
        Some("whisper-cpp")
    } else {
        None
    }
}

/// Look for a transcriber: `whisper` first, then `whisper-cpp`.
pub fn find_whisper() -> (r: Option<&'static str>)
    ensures
        r.deep_view() == spec_pick_whisper(true, false) || r.deep_view() == spec_pick_whisper(
            false,
            true,
        ) || r.deep_view() == spec_pick_whisper(false, false),
{
    if executable_on_path("whisper") {
        pick_whisper(true, false)
    } else {
        let cpp = executable_on_path("whisper-cpp");
        pick_whisper(false, cpp)
    }
}

/// Whether ffmpeg is installed. It depends on the machine.
pub fn ffmpeg_installed() -> bool {
    executable_on_path("ffmpeg")
}

} // verus!
