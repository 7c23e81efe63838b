//! The error codes of the launch core.

use vstd::prelude::*;

verus! {

/// The stable error codes that the launch core hands back to its callers.
///
/// Callers own localization: `key` gives the message key to look up.
#[derive(Clone, Copy, Debug, PartialEq, Eq, Structural)]
pub enum ErrorCode {
    /// A process with the profile's executable name is already running.
    AlreadyRunning,
    /// This platform has no native launch implementation.
    Unsupported,
    /// The launcher's own process token could not be opened.
    NotElevated,
    /// The interactive desktop shell could not be found or opened.
    NoParentShell,
    /// The game executable's path could not be canonicalized.
    BadPath,
    /// Process creation, or a process-control call, failed.
    LaunchFailed,
    /// A DLL could not be loaded into the target.
    DllInjectionFailed,
    /// A tool's file is neither a DLL nor an EXE.
    UnknownToolType,
    /// No version token was found in the game binary.
    VersionResolutionFailed,
    /// The resolved version is already registered.
    VersionAlreadyKnown,
}

/// The message key of each error code.
pub open spec fn key_of(e: ErrorCode) -> Seq<char> {
    match e {
        ErrorCode::AlreadyRunning => "game.error.already-open"@,
        ErrorCode::Unsupported => "game.error.launch.unsupported"@,
        ErrorCode::NotElevated => "game.error.launch.not-elevated"@,
        ErrorCode::NoParentShell => "game.error.launch.no-parent"@,
        ErrorCode::BadPath => "game.error.launch.bad-path"@,
        ErrorCode::LaunchFailed => "game.error.launch.unknown"@,
        ErrorCode::DllInjectionFailed => "game.error.launch.dll-fail"@,
        ErrorCode::UnknownToolType => "game.error.launch.unknown-tool"@,
        ErrorCode::VersionResolutionFailed => "backend.version.resolve.error"@,
        ErrorCode::VersionAlreadyKnown => "backend.version.resolve.exists"@,
    }
}

impl ErrorCode {
    /// The localization key under which the caller finds this error's message.
    pub fn key(&self) -> (r: &'static str)
        ensures
            r@ == key_of(*self),
    {
        match self {
            ErrorCode::AlreadyRunning => "game.error.already-open",
            ErrorCode::Unsupported => "game.error.launch.unsupported",
            ErrorCode::NotElevated => "game.error.launch.not-elevated",
            ErrorCode::NoParentShell => "game.error.launch.no-parent",
            ErrorCode::BadPath => "game.error.launch.bad-path",
            ErrorCode::LaunchFailed => "game.error.launch.unknown",
            ErrorCode::DllInjectionFailed => "game.error.launch.dll-fail",
            ErrorCode::UnknownToolType => "game.error.launch.unknown-tool",
            ErrorCode::VersionResolutionFailed => "backend.version.resolve.error",
            ErrorCode::VersionAlreadyKnown => "backend.version.resolve.exists",
        }
    }
}

} // verus!
