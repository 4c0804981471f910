//! Submit intents: a draft is held until the service admits the command.

use vstd::prelude::*;

use super::attachment::{copy_attachments, AttachmentView, PendingAttachment};

verus! {

/// Monotonic id for one user submit intent.
pub type IntentId = u64;

/// Id the service gives an enqueued command.
#[derive(Clone, Copy, Debug, PartialEq, Eq, Structural)]
pub struct FrontendRequestId(pub u64);

/// Draft held while media decoding or command dispatch is in flight.
#[derive(Clone, Debug, PartialEq, Eq)]
pub struct PendingSubmission {
    pub intent_id: IntentId,
    pub draft: String,
    pub attachments: Vec<PendingAttachment>,
    /// Set once the submit command was enqueued.
    pub request_id: Option<FrontendRequestId>,
    /// The draft generation at the moment the intent entered dispatch.
    pub held_generation: u64,
}

/// A [`PendingSubmission`] as a mathematical value.
pub struct PendingView {
    pub intent_id: IntentId,
    pub draft: Seq<char>,
    pub attachments: Seq<AttachmentView>,
    pub request_id: Option<FrontendRequestId>,
    pub held_generation: u64,
}

impl DeepView for PendingSubmission {
    type V = PendingView;

    open spec fn deep_view(&self) -> PendingView {
        PendingView {
            intent_id: self.intent_id,
            draft: self.draft@,
            attachments: self.attachments.deep_view(),
            request_id: self.request_id,
            held_generation: self.held_generation,
        }
    }
}

impl PendingSubmission {
    pub fn copy(&self) -> (pending: PendingSubmission)
        ensures
            pending.deep_view() == self.deep_view(),
    {
        PendingSubmission {
            intent_id: self.intent_id,
            draft: self.draft.clone(),
            attachments: copy_attachments(&self.attachments),
            request_id: self.request_id,
            held_generation: self.held_generation,
        }
    }
}

/// Local submit state. At most one intent is pending.
#[derive(Clone, Debug, PartialEq, Eq)]
pub enum SubmitState {
    Editing,
    Dispatching(PendingSubmission),
    Accepted { intent_id: IntentId, operation_id: String },
}

/// A [`SubmitState`] as a mathematical value.
pub enum SubmitView {
    Editing,
    Dispatching(PendingView),
    Accepted { intent_id: IntentId, operation_id: Seq<char> },
}

impl DeepView for SubmitState {
    type V = SubmitView;

    open spec fn deep_view(&self) -> SubmitView {
        match self {
            SubmitState::Editing => SubmitView::Editing,
            SubmitState::Dispatching(pending) => SubmitView::Dispatching(pending.deep_view()),
            SubmitState::Accepted { intent_id, operation_id } => SubmitView::Accepted {
                intent_id: *intent_id,
                operation_id: operation_id@,
            },
        }
    }
}

impl SubmitState {
    pub fn intent_id(&self) -> (id: Option<IntentId>)
        ensures
            id == (match self.deep_view() {
                SubmitView::Editing => None,
                SubmitView::Dispatching(pending) => Some(pending.intent_id),
                SubmitView::Accepted { intent_id, .. } => Some(intent_id),
            }),
    {
        match self {
            SubmitState::Editing => None,
            SubmitState::Dispatching(pending) => Some(pending.intent_id),
            SubmitState::Accepted { intent_id, .. } => Some(*intent_id),
        }
    }

    pub fn pending(&self) -> (pending: Option<&PendingSubmission>)
        ensures
            match pending {
                Some(pending) => *self == SubmitState::Dispatching(*pending),
                None => !(self is Dispatching),
            },
    {
        match self {
            SubmitState::Dispatching(pending) => Some(pending),
            _ => None,
        }
    }
}

impl Default for SubmitState {
    fn default() -> (state: SubmitState)
        ensures
            state is Editing,
    {
        SubmitState::Editing
    }
}

/// How the dispatch of a submit command ended.
#[derive(Clone, Debug, PartialEq, Eq)]
pub enum SubmitDispatchResult {
    Enqueued(FrontendRequestId),
    Backpressured,
    Disconnected { lane: &'static str },
}

/// How the dispatch of a cancel command ended.
#[derive(Clone, Debug, PartialEq, Eq)]
pub enum CancelDispatchResult {
    Enqueued(FrontendRequestId),
    Backpressured,
    Disconnected { lane: &'static str },
}

} // verus!
