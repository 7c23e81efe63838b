//! Questions to the operating system: is a process running.

use crate::game::Profile;
use crate::paths::get_executable_name;
use vstd::prelude::*;

verus! {

/// How an attempt to open a file with the system's handler went.
#[derive(Clone, Copy, Debug, PartialEq, Eq, Structural)]
pub enum OpenResult {
    /// The file opened.
    Success,
    /// The file does not exist, or the user declined a prompt to open it
    /// (untrusted files, or files that need special privileges).
    Failed,
}

/// Whether a process with exactly this name is running.
///
/// Relies on sysinfo's `System::refresh_all` and
/// `System::processes_by_exact_name`; the answer depends on the machine.
#[verifier::external_body]
pub fn find_process(process_name: &str) -> (r: bool) {
    let mut system = sysinfo::System::new();
    system.refresh_all();
    let found = system.processes_by_exact_name(process_name.as_ref()).next().is_some();
    found
}

/// Whether the game of a profile is running: some process bears the name of
/// the profile's executable. Usable whether or not a launch is under way.
pub fn is_game_running(profile: &Profile) -> (r: bool) {
    let name = get_executable_name(profile.version.path.as_str());
    find_process(name.as_str())
}

} // verus!
