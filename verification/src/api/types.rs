//! Public session outcome and recovery types.

use vstd::prelude::*;

verus! {

/// One terminal mode capability acquired during setup.
#[derive(Clone, Copy, Debug, PartialEq, Eq, Structural)]
pub enum TerminalCapability {
    RawMode,
    AlternateScreen,
    MouseCapture,
    BracketedPaste,
    KeyboardEnhancement,
}

impl TerminalCapability {
    pub fn as_str(self) -> (name: &'static str)
        ensures
            name@ == (match self {
                TerminalCapability::RawMode => "raw mode"@,
                TerminalCapability::AlternateScreen => "alternate screen"@,
                TerminalCapability::MouseCapture => "mouse capture"@,
                TerminalCapability::BracketedPaste => "bracketed paste"@,
                TerminalCapability::KeyboardEnhancement => "keyboard enhancement"@,
            }),
    {
        match self {
            TerminalCapability::RawMode => "raw mode",
            TerminalCapability::AlternateScreen => "alternate screen",
            TerminalCapability::MouseCapture => "mouse capture",
            TerminalCapability::BracketedPaste => "bracketed paste",
            TerminalCapability::KeyboardEnhancement => "keyboard enhancement",
        }
    }
}

/// One restore step that failed while releasing a held capability.
#[derive(Clone, Debug, PartialEq, Eq)]
pub struct RestoreFailure {
    pub capability: TerminalCapability,
    pub message: String,
}

/// Structured result of an explicit finish/restore. Errors are collected rather
/// than swallowed.
#[derive(Clone, Debug, Default, PartialEq, Eq)]
pub struct RestoreReport {
    /// True when this call actually restored the matching live session.
    pub restored: bool,
    /// True when a stale token was ignored so a newer session stays intact.
    pub skipped_stale: bool,
    /// Capabilities this call attempted to release.
    pub attempted: Vec<TerminalCapability>,
    /// Capabilities successfully released in this call.
    pub restored_caps: Vec<TerminalCapability>,
    /// Restore steps that failed.
    pub failures: Vec<RestoreFailure>,
}

/// One attachment preserved when an instance cannot dispatch a submit.
#[derive(Clone, Debug, PartialEq, Eq)]
pub enum TuiRecoveryAttachment {
    /// A path registered by `/image`; the next instance resolves it on submit.
    Path(String),
    /// Image bytes already decoded by the previous instance.
    Image {
        media_type: String,
        bytes: Vec<u8>,
        /// Original path or clipboard label shown in the composer.
        origin: String,
    },
}

/// Editable composer contents carried across a frontend restart.
#[derive(Clone, Debug, PartialEq, Eq)]
pub struct TuiRecovery {
    pub draft: String,
    pub attachments: Vec<TuiRecoveryAttachment>,
}

impl TuiRecovery {
    pub fn is_empty(&self) -> (yes: bool)
        ensures
            yes == (self.draft@.len() == 0 && self.attachments@.len() == 0),
    {
        self.draft.as_str().is_empty() && self.attachments.len() == 0
    }
}

/// One run: the session outcome plus the terminal restore report.
#[derive(Clone, Debug, PartialEq, Eq)]
pub struct TuiRunReport {
    /// How the interactive session ended.
    pub outcome: TuiOutcome,
    /// Structured terminal restore result. Never silently discarded.
    pub restore: RestoreReport,
    /// Composer contents that were not accepted by the service.
    pub recovery: Option<TuiRecovery>,
}

/// Alternate screen versus an inline viewport on the main buffer.
#[derive(Clone, Copy, Debug, PartialEq, Eq, Structural)]
pub enum TuiScreen {
    Alternate,
    Inline,
}

/// How the interactive session ended.
#[derive(Clone, Debug, PartialEq, Eq)]
pub enum TuiOutcome {
    /// Idle user quit (`/quit`, idle Ctrl+C, empty Ctrl+D).
    UserExit,
    /// Terminal or frontend input fault; the supervisor may restart.
    FrontendRestartRequested { fault: String },
    /// Consecutive faults exceeded budget; the supervisor should fall back.
    FallbackRequested { fault: String },
    /// User asked to shut the process down while work was still active.
    ProcessShutdownRequested,
    /// Supervisor-requested forced process exit after restore.
    ForcedExitRequested { code: u8 },
}

} // verus!
