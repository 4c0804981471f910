//! Semantic input actions consumed by the app state machine.

use vstd::prelude::*;

use super::attachment::PendingAttachment;
use super::submit::{CancelDispatchResult, IntentId, SubmitDispatchResult};

verus! {

#[derive(Clone, Debug, PartialEq, Eq)]
pub enum Action {
    InsertChar(char),
    InsertNewline,
    Backspace,
    Delete,
    MoveLeft,
    MoveRight,
    MoveUp,
    MoveDown,
    Home,
    End,
    Submit,
    /// `Esc`: cancel while running, close overlays.
    Escape,
    /// `Ctrl+C`: clear input, cancel, or two-step exit, by context.
    CtrlC,
    /// `Ctrl+D`: exit when the input is empty.
    CtrlD,
    /// `Ctrl+O`: toggle the information tier.
    ToggleLevel,
    /// `Ctrl+L`: force a full redraw.
    Redraw,
    /// Scroll the transcript a page toward older rows.
    PageTranscriptUp,
    /// Scroll the transcript a page toward newer rows.
    PageTranscriptDown,
    /// Leave the composer (draft intact) and browse the history.
    EnterBrowse,
    /// Browsing: step the cursor by rows, older rows being negative.
    BrowseStep(isize),
    /// Browsing: page the cursor by whole viewports.
    BrowsePage(isize),
    /// Browsing: toggle the foldable element under the cursor.
    BrowseToggleFold,
    /// Browsing: return the focus to the composer.
    ExitBrowse,
    /// Wheel or equivalent: negative moves toward older rows.
    ScrollTranscript(isize),
    /// Left button down inside the transcript band.
    SelectStart { x: u16, y: u16 },
    /// The pointer moved while a selection is being dragged.
    SelectDrag { x: u16, y: u16 },
    /// Left button up; a collapsed range is discarded.
    SelectEnd { x: u16, y: u16 },
    /// `Tab`: slash-command completion.
    Complete,
    /// `Ctrl+V` outside a bracketed paste: the clipboard is read directly.
    Paste,
    /// Media decoding refused a pending submit intent.
    SubmitMediaRefused { intent_id: IntentId, kept: Vec<PendingAttachment>, errors: Vec<String> },
    /// The dispatch of a pending intent finished.
    SubmitDispatchFinished { intent_id: IntentId, result: SubmitDispatchResult },
    /// The service refused a submit that still has a pending intent.
    SubmitCommandRejected { intent_id: IntentId, reason: String },
    /// The runtime admitted a submit: commit the pending state.
    SubmitAccepted { intent_id: IntentId, operation_id: String },
    /// The dispatch of a cancel command finished.
    CancelDispatchFinished { request_id: u64, result: CancelDispatchResult },
    /// The dispatch of a compaction cancel finished.
    CompactionCancelDispatchFinished { result: CancelDispatchResult },
    /// A key event that means nothing here, such as a key release.
    Inert,
}

} // verus!
