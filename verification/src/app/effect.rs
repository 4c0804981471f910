//! Side-effect requests emitted by the app state machine.

use vstd::prelude::*;

use super::attachment::{AttachmentView, PendingAttachment};
use super::frontend::{ConfirmationDecision, FrontendReasoningEffort};
use super::submit::IntentId;
use super::transcript::{LineView, TranscriptLine};

verus! {

/// One service-backed operation requested by a command or an overlay.
#[derive(Clone, Debug, PartialEq, Eq)]
pub enum HostRequest {
    NewSession,
    OpenSessions,
    OpenModels,
    LoadPreview(String),
    SwitchSession(String),
    RenameSession { title: String },
    RebuildModel { name: String, effort: Option<FrontendReasoningEffort> },
    RefreshModels,
    SetReasoning(FrontendReasoningEffort),
    ShowConfig,
    ShowStatus,
    Respond(u64, ConfirmationDecision),
}

/// A [`HostRequest`] as a mathematical value.
pub enum RequestView {
    NewSession,
    OpenSessions,
    OpenModels,
    LoadPreview(Seq<char>),
    SwitchSession(Seq<char>),
    RenameSession { title: Seq<char> },
    RebuildModel { name: Seq<char>, effort: Option<FrontendReasoningEffort> },
    RefreshModels,
    SetReasoning(FrontendReasoningEffort),
    ShowConfig,
    ShowStatus,
    Respond(u64, ConfirmationDecision),
}

impl DeepView for HostRequest {
    type V = RequestView;

    open spec fn deep_view(&self) -> RequestView {
        match self {
            HostRequest::NewSession => RequestView::NewSession,
            HostRequest::OpenSessions => RequestView::OpenSessions,
            HostRequest::OpenModels => RequestView::OpenModels,
            HostRequest::LoadPreview(id) => RequestView::LoadPreview(id@),
            HostRequest::SwitchSession(id) => RequestView::SwitchSession(id@),
            HostRequest::RenameSession { title } => RequestView::RenameSession { title: title@ },
            HostRequest::RebuildModel { name, effort } => RequestView::RebuildModel {
                name: name@,
                effort: *effort,
            },
            HostRequest::RefreshModels => RequestView::RefreshModels,
            HostRequest::SetReasoning(effort) => RequestView::SetReasoning(*effort),
            HostRequest::ShowConfig => RequestView::ShowConfig,
            HostRequest::ShowStatus => RequestView::ShowStatus,
            HostRequest::Respond(id, decision) => RequestView::Respond(*id, *decision),
        }
    }
}

/// A side effect the driver must perform.
#[derive(Clone, Debug, PartialEq, Eq)]
pub enum Effect {
    Append(Vec<TranscriptLine>),
    /// Prepare and dispatch a pending submit intent.
    PrepareSubmit { intent_id: IntentId, text: String, attachments: Vec<PendingAttachment> },
    /// Say which attachments of a refused message could not be read.
    ShowRefusal { errors: Vec<String>, restored: bool },
    /// Read the system clipboard.
    ReadClipboard,
    /// Copy the selection to the system clipboard.
    WriteClipboard(String),
    CancelActive,
    /// `Ctrl+C` while busy: counts toward the two-strike forced exit.
    InterruptCancel,
    /// Ask the service to start manual compaction.
    StartCompaction,
    /// Ask the service to cancel the active maintenance task.
    CancelCompaction,
    /// Idle user exit.
    Quit,
    /// Confirmed `/quit` while busy.
    RequestShutdown,
    /// Explicit terminal recovery (`Ctrl+L`).
    HardRedraw,
    Host(HostRequest),
}

/// An [`Effect`] as a mathematical value.
pub enum EffectView {
    Append(Seq<LineView>),
    PrepareSubmit { intent_id: IntentId, text: Seq<char>, attachments: Seq<AttachmentView> },
    ShowRefusal { errors: Seq<Seq<char>>, restored: bool },
    ReadClipboard,
    WriteClipboard(Seq<char>),
    CancelActive,
    InterruptCancel,
    StartCompaction,
    CancelCompaction,
    Quit,
    RequestShutdown,
    HardRedraw,
    Host(RequestView),
}

impl DeepView for Effect {
    type V = EffectView;

    open spec fn deep_view(&self) -> EffectView {
        match self {
            Effect::Append(lines) => EffectView::Append(lines.deep_view()),
            Effect::PrepareSubmit { intent_id, text, attachments } => EffectView::PrepareSubmit {
                intent_id: *intent_id,
                text: text@,
                attachments: attachments.deep_view(),
            },
            Effect::ShowRefusal { errors, restored } => EffectView::ShowRefusal {
                errors: errors.deep_view(),
                restored: *restored,
            },
            Effect::ReadClipboard => EffectView::ReadClipboard,
            Effect::WriteClipboard(text) => EffectView::WriteClipboard(text@),
            Effect::CancelActive => EffectView::CancelActive,
            Effect::InterruptCancel => EffectView::InterruptCancel,
            Effect::StartCompaction => EffectView::StartCompaction,
            Effect::CancelCompaction => EffectView::CancelCompaction,
            Effect::Quit => EffectView::Quit,
            Effect::RequestShutdown => EffectView::RequestShutdown,
            Effect::HardRedraw => EffectView::HardRedraw,
            Effect::Host(request) => EffectView::Host(request.deep_view()),
        }
    }
}

/// No effect.
pub open spec fn nothing() -> Seq<EffectView> {
    Seq::empty()
}

/// One effect alone.
pub open spec fn only(effect: EffectView) -> Seq<EffectView> {
    seq![effect]
}

/// One appended line.
pub open spec fn says(line: LineView) -> Seq<EffectView> {
    seq![EffectView::Append(seq![line])]
}

pub fn no_effects() -> (effects: Vec<Effect>)
    ensures
        effects.deep_view() == nothing(),
{
    let effects: Vec<Effect> = Vec::new();
    assert(effects.deep_view() =~= nothing());
    effects
}

pub fn one_effect(effect: Effect) -> (effects: Vec<Effect>)
    ensures
        effects.deep_view() == only(effect.deep_view()),
{
    let mut effects: Vec<Effect> = Vec::new();
    effects.push(effect);
    assert(effects.deep_view() =~= only(effect.deep_view()));
    effects
}

pub fn two_effects(first: Effect, second: Effect) -> (effects: Vec<Effect>)
    ensures
        effects.deep_view() == seq![first.deep_view(), second.deep_view()],
{
    let mut effects: Vec<Effect> = Vec::new();
    effects.push(first);
    effects.push(second);
    assert(effects.deep_view() =~= seq![first.deep_view(), second.deep_view()]);
    effects
}

/// The effect that appends one line.
pub fn append_line(line: TranscriptLine) -> (effect: Effect)
    ensures
        effect.deep_view() == EffectView::Append(seq![line.deep_view()]),
{
    let mut lines: Vec<TranscriptLine> = Vec::new();
    lines.push(line);
    assert(lines.deep_view() =~= seq![line.deep_view()]);
    Effect::Append(lines)
}

pub fn say(line: TranscriptLine) -> (effects: Vec<Effect>)
    ensures
        effects.deep_view() == says(line.deep_view()),
{
    one_effect(append_line(line))
}

} // verus!
