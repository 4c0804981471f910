//! What the service tells the front end between operation events.

use vstd::prelude::*;

use super::frontend::{FrontendOperationEvent, FrontendTokenUsage};
use super::listings::{FrontendConfigEntry, FrontendStatus};
use super::session::DurableSessionView;

verus! {

/// The model that one session last ran on.
#[derive(Clone, Debug, PartialEq, Eq)]
pub struct FrontendGenerationChoice {
    pub provider: Option<String>,
    pub model_name: String,
    pub reasoning_effort: Option<String>,
}

/// A [`FrontendGenerationChoice`] as a mathematical value.
pub struct ChoiceView {
    pub provider: Option<Seq<char>>,
    pub model_name: Seq<char>,
    pub reasoning_effort: Option<Seq<char>>,
}

impl DeepView for FrontendGenerationChoice {
    type V = ChoiceView;

    open spec fn deep_view(&self) -> ChoiceView {
        ChoiceView {
            provider: self.provider.deep_view(),
            model_name: self.model_name@,
            reasoning_effort: self.reasoning_effort.deep_view(),
        }
    }
}

impl FrontendGenerationChoice {
    pub fn copy(&self) -> (choice: FrontendGenerationChoice)
        ensures
            choice.deep_view() == self.deep_view(),
    {
        FrontendGenerationChoice {
            provider: crate::strs::clone_opt(&self.provider),
            model_name: self.model_name.clone(),
            reasoning_effort: crate::strs::clone_opt(&self.reasoning_effort),
        }
    }
}

/// The generation that is installed.
#[derive(Clone, Debug, PartialEq, Eq)]
pub struct FrontendGeneration {
    pub model_name: String,
    pub reasoning_effort: Option<String>,
    pub provider: Option<String>,
}

/// What occupies the agent.
#[derive(Clone, Debug, PartialEq, Eq)]
pub enum FrontendAvailability {
    Idle,
    Busy { operation_id: String },
    Compacting { maintenance_id: String },
}

#[derive(Clone, Copy, Debug, PartialEq, Eq, Structural)]
pub enum FrontendMaintenancePhase {
    Accepted,
    Started,
    Progress,
    Settled,
    Failed,
    Cancelled,
}

/// One step of a maintenance task.
#[derive(Clone, Debug, PartialEq, Eq)]
pub struct FrontendMaintenance {
    pub phase: FrontendMaintenancePhase,
    pub message: Option<String>,
}

/// What a manual compaction came to.
#[derive(Clone, Debug, PartialEq, Eq)]
pub enum CompactionReport {
    Compacted { covers_up_to: String },
    NothingToCompact,
}

/// Why a manual compaction came to nothing.
#[derive(Clone, Debug, PartialEq, Eq)]
pub enum CompactionError {
    Unavailable { availability: FrontendAvailability },
    Failed { message: String },
}

/// One recorded session.
#[derive(Clone, Debug, PartialEq, Eq)]
pub struct FrontendSessionSummary {
    pub session_id: String,
    pub title: Option<String>,
    /// Unix seconds of the last change.
    pub updated_at: Option<u64>,
}

/// One configured model.
#[derive(Clone, Debug, PartialEq, Eq)]
pub struct FrontendModelListing {
    pub id: String,
    pub provider: String,
    pub current: bool,
    pub reasoning_tiers: Vec<String>,
}

/// How the service itself fares.
#[derive(Clone, Debug, PartialEq, Eq)]
pub enum ServiceHealth {
    Healthy,
    Degraded { message: String },
    RuntimeEpochEnded { message: String },
    ShuttingDown,
}

/// What the running operation has produced so far.
#[derive(Clone, Debug, PartialEq, Eq)]
pub struct LiveOperationSnapshot {
    pub operation_id: Option<String>,
    pub model_call_id: Option<String>,
    pub reasoning: String,
    pub text: String,
    pub usage: Option<FrontendTokenUsage>,
}

/// One operation that waits for its turn.
#[derive(Clone, Debug, PartialEq, Eq)]
pub struct QueuedOperation {
    pub operation_id: String,
}

/// One approval request that waits for an answer.
#[derive(Clone, Debug, PartialEq, Eq)]
pub struct PendingConfirmation {
    pub confirmation_id: u64,
    pub title: String,
    pub body: String,
}

/// Everything a front end needs to catch up.
#[derive(Clone, Debug, PartialEq, Eq)]
pub struct FrontendSnapshot {
    pub current_session_id: Option<String>,
    pub durable_session_view: Option<DurableSessionView>,
    pub live: LiveOperationSnapshot,
    pub availability: FrontendAvailability,
    pub queued: Vec<QueuedOperation>,
    pub usage: Option<FrontendTokenUsage>,
    pub generation: FrontendGeneration,
    pub pending_confirmations: Vec<PendingConfirmation>,
    pub maintenance: Option<FrontendMaintenance>,
    pub health: ServiceHealth,
}

/// One update from the service. A refusal is given by its words.
#[derive(Clone, Debug, PartialEq, Eq)]
pub enum FrontendUpdateKind {
    CommandAccepted,
    CompactionAccepted { maintenance_id: String },
    SubmitAccepted { operation_id: String },
    CommandRejected { reason: String },
    OperationAccepted { operation_id: String },
    OperationEvent(FrontendOperationEvent),
    AvailabilityChanged { availability: FrontendAvailability, queued: usize },
    MaintenanceChanged(FrontendMaintenance),
    SessionLoaded { session_id: String, view: DurableSessionView },
    SessionPreviewed { session_id: String, view: DurableSessionView },
    SessionListLoaded { sessions: Vec<FrontendSessionSummary> },
    ModelListLoaded { models: Vec<FrontendModelListing> },
    GenerationInstalled { display: FrontendGeneration },
    GenerationInstallFailed { message: String },
    ConfigChanged { entries: Vec<FrontendConfigEntry> },
    ConfirmationRequested { confirmation_id: u64, title: String, body: String },
    ConfirmationResolved { confirmation_id: u64 },
    SnapshotReady(FrontendSnapshot),
    ResyncRequired,
    ServiceHealthChanged { health: ServiceHealth },
    StatusReady(FrontendStatus),
}

} // verus!
