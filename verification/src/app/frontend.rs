//! What the agent service tells the front end, and what it is asked for.

use vstd::prelude::*;

verus! {

/// Tokens of the latest turn, as far as the provider reported them.
#[derive(Clone, Copy, Debug, PartialEq, Eq)]
pub struct FrontendTokenUsage {
    pub input_tokens: Option<u64>,
    pub output_tokens: Option<u64>,
    pub cache_read_tokens: Option<u64>,
    pub reasoning_tokens: Option<u64>,
}

impl DeepView for FrontendTokenUsage {
    type V = FrontendTokenUsage;

    open spec fn deep_view(&self) -> FrontendTokenUsage {
        *self
    }
}

/// Nothing reported.
pub open spec fn no_usage() -> FrontendTokenUsage {
    FrontendTokenUsage {
        input_tokens: None,
        output_tokens: None,
        cache_read_tokens: None,
        reasoning_tokens: None,
    }
}

impl Default for FrontendTokenUsage {
    fn default() -> (usage: FrontendTokenUsage)
        ensures
            usage == no_usage(),
    {
        FrontendTokenUsage {
            input_tokens: None,
            output_tokens: None,
            cache_read_tokens: None,
            reasoning_tokens: None,
        }
    }
}

/// How much a model reasons before it answers.
#[derive(Clone, Copy, Debug, PartialEq, Eq, Structural)]
pub enum FrontendReasoningEffort {
    Minimal,
    Low,
    Medium,
    High,
    Xhigh,
    Max,
}

/// The answer to an approval request.
#[derive(Clone, Copy, Debug, PartialEq, Eq, Structural)]
pub enum ConfirmationDecision {
    Allow,
    Deny,
}

/// Why a turn or a model call failed.
#[derive(Clone, Debug, PartialEq, Eq)]
pub struct FrontendFailure {
    pub code: String,
    pub domain: String,
    pub stage: String,
    pub retry: String,
    pub summary: String,
    pub diagnostic: String,
}

/// What a tool returned.
#[derive(Clone, Debug, PartialEq, Eq)]
pub enum FrontendToolResult {
    Success { content: String },
    Error { code: String, message: String },
}

impl FrontendToolResult {
    pub fn copy(&self) -> (result: FrontendToolResult)
        ensures
            result.deep_view() == self.deep_view(),
    {
        match self {
            FrontendToolResult::Success { content } => FrontendToolResult::Success {
                content: content.clone(),
            },
            FrontendToolResult::Error { code, message } => FrontendToolResult::Error {
                code: code.clone(),
                message: message.clone(),
            },
        }
    }
}

/// A [`FrontendToolResult`] as a mathematical value.
pub enum ResultView {
    Success { content: Seq<char> },
    Error { code: Seq<char>, message: Seq<char> },
}

impl DeepView for FrontendToolResult {
    type V = ResultView;

    open spec fn deep_view(&self) -> ResultView {
        match self {
            FrontendToolResult::Success { content } => ResultView::Success { content: content@ },
            FrontendToolResult::Error { code, message } => ResultView::Error {
                code: code@,
                message: message@,
            },
        }
    }
}

/// What a tool sent along with its result to be shown in place of it. It is
/// carried to where the card is drawn and is not read before.
#[derive(Clone, Debug, PartialEq, Eq)]
pub struct FrontendToolDisplay {
    pub payload: String,
}

/// A [`FrontendToolDisplay`] as a mathematical value.
pub struct DisplayView {
    pub payload: Seq<char>,
}

impl DeepView for FrontendToolDisplay {
    type V = DisplayView;

    open spec fn deep_view(&self) -> DisplayView {
        DisplayView { payload: self.payload@ }
    }
}

/// A copy of what a tool sent to be shown.
pub fn copy_display(display: &Option<FrontendToolDisplay>) -> (result: Option<FrontendToolDisplay>)
    ensures
        result.deep_view() == display.deep_view(),
{
    match display {
        Some(display) => Some(FrontendToolDisplay { payload: display.payload.clone() }),
        None => None,
    }
}

/// How a settlement moved the session's revision.
#[derive(Clone, Copy, Debug, PartialEq, Eq)]
pub enum SettlementRevision {
    Unchanged,
    Advanced(u64),
}

/// One event of the operation that occupies the agent.
#[derive(Clone, Debug, PartialEq, Eq)]
pub enum FrontendOperationEvent {
    OperationQueued { operation_id: String },
    OperationStarted { operation_id: String },
    TurnStarted { turn_id: String },
    ModelCallStarted { model_call_id: String },
    ModelResponseStarted { model_call_id: String },
    AssistantMessageCompleted { turn_id: String, content: String },
    ReasoningDelta { model_call_id: String, text: String },
    TextDelta { delta: String },
    ToolBatchRequested { tool_batch_id: String, call_count: usize },
    ToolExecutionStarted {
        tool_batch_id: String,
        tool_call_id: String,
        index: usize,
        tool_name: String,
        arguments: String,
    },
    ToolExecutionProgress {
        tool_batch_id: String,
        tool_call_id: String,
        index: usize,
        tail: String,
    },
    ToolExecutionCompleted {
        tool_batch_id: String,
        tool_call_id: String,
        index: usize,
        tool_name: String,
        result: FrontendToolResult,
        display: Option<FrontendToolDisplay>,
    },
    ContextCompactionStarted,
    ContextCompactionCompleted { covers_up_to: String },
    ContextCompactionFailed { message: String },
    CancellationRequested { operation_id: String, reason: String },
    TurnCancelled { turn_id: String, reason: String },
    ModelRetryScheduled {
        model_call_id: String,
        attempt: u64,
        max_retries: u64,
        delay_ms: u64,
        failure: FrontendFailure,
    },
    TurnFailed { turn_id: String, failure: FrontendFailure },
    OperationSettled {
        operation_id: String,
        session_id: String,
        status: String,
        durability: String,
        session_revision: SettlementRevision,
    },
    ModelUsageUpdated { model_call_id: String, usage: FrontendTokenUsage },
    PriorTurnSealed { turn_id: String },
}

} // verus!
