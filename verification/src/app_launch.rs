//! Starting Zotero: the command that starts it, for the platform it runs on. On macOS, an
//! executable inside an `.app` bundle that exists is started with `open` on the bundle; anywhere
//! else the executable is run directly, with no arguments.

use vstd::prelude::*;

use crate::add_file::{extension_result, path_extension};
use crate::add_import::opt_string;
use crate::text::str_eq;

verus! {

/// A command not yet run: a program and its arguments.
pub struct LaunchCommand {
    pub program: String,
    pub args: Vec<String>,
}

/// What `Path::parent` gives for a path, as text.
pub uninterp spec fn parent_result(path: Seq<char>) -> Option<Seq<char>>;

/// Calls `std::path::Path::parent` (the path is text, so its parent is too).
#[verifier::external_body]
fn path_parent(path: &str) -> (r: Option<String>)
    ensures
        opt_string(r) == parent_result(path@),
{
    std::path::Path::new(path).parent().map(|p| p.to_string_lossy().into_owned())
}

/// The first of `path` and its ancestors (parent after parent, at most `fuel` of them looked
/// at) whose last component has the extension `app`.
pub open spec fn app_bundle_from(path: Seq<char>, fuel: nat) -> Option<Seq<char>>
    decreases fuel,
{
    if fuel == 0 {
        None
    } else if extension_result(path) == Some("app"@) {
        Some(path)
    } else {
        match parent_result(path) {
            Some(p) => app_bundle_from(p, (fuel - 1) as nat),
            None => None,
        }
    }
}

/// The `.app` bundle an executable lies in: itself or its nearest ancestor ending in `.app`
/// (a path has at most one ancestor per character, and one more for itself).
pub open spec fn app_bundle_spec(executable: Seq<char>) -> Option<Seq<char>> {
    app_bundle_from(executable, executable.len() + 1)
}

/// The `.app` bundle an executable lies in, if any.
pub fn macos_app_bundle(executable: &str) -> (r: Option<String>)
    ensures
        opt_string(r) == app_bundle_spec(executable@),
{
    let mut p = executable.to_owned();
    let mut fuel: usize = crate::text::chars_of(executable).len();
    let ghost target = app_bundle_spec(executable@);
    loop
        invariant
            target == app_bundle_spec(executable@),
            target == app_bundle_from(p@, fuel as nat + 1),
        decreases fuel,
    {
        let is_app = match path_extension(p.as_str()) {
            Some(e) => str_eq(e.as_str(), "app"),
            None => false,
        };
        if is_app {
            return Some(p);
        }
        if fuel == 0 {
            proof {
                if parent_result(p@) is Some {
                    assert(app_bundle_from(parent_result(p@)->0, 0) is None);
                }
            }
            return None;
        }
        match path_parent(p.as_str()) {
            Some(q) => {
                p = q;
            },
            None => return None,
        }
        fuel = fuel - 1;
    }
}

/// The command that starts Zotero: on macOS, when the executable's bundle exists
/// (`bundle_exists` says whether the bundle `macos_app_bundle` finds is there), `open` with the
/// bundle; else the executable itself with no arguments.
pub fn build_launch_command(executable: &str, is_macos: bool, bundle_exists: bool) -> (r: LaunchCommand)
    ensures
        (is_macos && bundle_exists && app_bundle_spec(executable@) is Some) ==> r.program@ == "open"@ && r.args@.len() == 1
            && r.args@[0]@ == app_bundle_spec(executable@)->0,
        !(is_macos && bundle_exists && app_bundle_spec(executable@) is Some) ==> r.program@ == executable@ && r.args@.len() == 0,
{
    if is_macos && bundle_exists {
        if let Some(bundle) = macos_app_bundle(executable) {
            let mut args: Vec<String> = Vec::new();
            args.push(bundle);
            return LaunchCommand { program: "open".to_owned(), args };
        }
    }
    LaunchCommand { program: executable.to_owned(), args: Vec::new() }
}

} // verus!
