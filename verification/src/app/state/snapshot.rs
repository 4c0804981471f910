//! Catching up with a snapshot, and the dispatch of all updates.

use vstd::prelude::*;

use super::commands::{meta, meta_line};
use super::composer::{interrupted, submit_accepted, submit_failed};
use super::overlays::{front_shown, with_picker};
use super::runtime::{evented, flushed, paced};
use super::updates::{
    answered, availability_noted, catalog_loaded, choice_remembered, command_rejected,
    answering_grows, config_changed, generation_installed, growing_adds_up, grown, health_grows,
    health_told, history_shown, ingested, maintained, maintaining_grows, not_switched, said_behind,
    session_begun, session_loaded, sessions_listed, usage_restored,
};
use super::{App, AppView, SessionLoadIntent};
use crate::app::attachment::labels_of;
use crate::app::effect;
use crate::app::effect::{nothing, only, says, Effect, EffectView};
use crate::app::facts::effort_shown;
use crate::app::frontend::{FrontendOperationEvent, FrontendTokenUsage};
use crate::app::listings;
use crate::app::listings::{status_listing, FrontendStatus};
use crate::app::overlay::{with_preview, ConfirmPrompt, PickerView, Preview, PreviewView, PromptView};
use crate::app::pacer::PieceText;
use crate::app::projection;
use crate::app::projection::{pieces_written, Projection, ProjectionView};
use crate::app::run_state;
use crate::app::run_state::Phase;
use crate::app::session::{FrontendContextMessage, FrontendUserPart, MessageView, PartView};
use crate::app::status::{summary, StatusView};
use crate::app::submit::{PendingSubmission, PendingView, SubmitView};
use crate::app::transcript::{LineKind, LineView, TranscriptLine};
use crate::app::update::{
    FrontendAvailability, FrontendModelListing, FrontendSnapshot, FrontendUpdateKind,
    LiveOperationSnapshot, PendingConfirmation, QueuedOperation,
};
use crate::strs;
use crate::strs::join;

verus! {

/// What an update calls for: effects for the driver and steps for the renderer.
#[derive(Debug)]
pub struct Reaction {
    pub effects: Vec<Effect>,
    pub plan: Vec<Projection>,
}

/// What the renderer made of the session view that an update carries: its
/// replay, and the rows of its preview.
#[derive(Debug)]
pub struct Rendered {
    pub history: Vec<TranscriptLine>,
    pub preview: Vec<String>,
}

// ---------------------------------------------------------------------------
// Which operation a held message became
// ---------------------------------------------------------------------------

/// The ids with one more, if it is not among them.
pub open spec fn with_id(ids: Seq<Seq<char>>, id: Seq<char>) -> Seq<Seq<char>> {
    if ids.contains(id) {
        ids
    } else {
        ids.push(id)
    }
}

/// The ids with those of the first queued operations.
pub open spec fn with_queued(ids: Seq<Seq<char>>, queued: Seq<QueuedOperation>) -> Seq<Seq<char>>
    decreases queued.len(),
{
    if queued.len() == 0 {
        ids
    } else {
        with_id(with_queued(ids, queued.drop_last()), queued.last().operation_id@)
    }
}

/// The operations in flight: the live one, the queued ones, the busy one.
pub open spec fn in_flight(snapshot: FrontendSnapshot) -> Seq<Seq<char>> {
    let live = match snapshot.live.operation_id {
        Some(id) => seq![id@],
        None => Seq::empty(),
    };
    let ids = with_queued(live, snapshot.queued@);
    match snapshot.availability {
        FrontendAvailability::Busy { operation_id } => with_id(ids, operation_id@),
        _ => ids,
    }
}

/// The parts of the last user message.
pub open spec fn last_parts(messages: Seq<MessageView>) -> Option<Seq<PartView>>
    decreases messages.len(),
{
    if messages.len() == 0 {
        None
    } else {
        match messages.last() {
            MessageView::User { parts } => Some(parts),
            _ => last_parts(messages.drop_last()),
        }
    }
}

/// The parts of the last user message that a snapshot knows.
pub open spec fn snapshot_parts(snapshot: FrontendSnapshot) -> Option<Seq<PartView>> {
    match snapshot.durable_session_view {
        Some(view) => last_parts(view.messages.deep_view()),
        None => None,
    }
}

/// Whether a held message is the one that the parts make up: its text is among
/// them, or an image is where it has no text.
pub open spec fn landed(parts: Seq<PartView>, pending: PendingView) -> bool {
    if pending.draft.len() > 0 {
        parts.contains(PartView::Text(pending.draft))
    } else {
        pending.attachments.len() > 0 && exists|i: int|
            0 <= i < parts.len() && (#[trigger] parts[i]) is Image
    }
}

/// The operation that a held message became, if the snapshot shows it.
pub open spec fn operation_for(snapshot: FrontendSnapshot, pending: PendingView) -> Option<
    Seq<char>,
> {
    if in_flight(snapshot).len() == 0 {
        None
    } else {
        match snapshot_parts(snapshot) {
            Some(parts) => if landed(parts, pending) {
                Some(in_flight(snapshot)[0])
            } else {
                None
            },
            None => None,
        }
    }
}

/// Adds an id that is not there.
fn add_id(ids: &mut Vec<String>, id: &str)
    ensures
        final(ids).deep_view() == with_id(old(ids).deep_view(), id@),
{
    let ghost all = ids.deep_view();
    let mut i: usize = 0;
    while i < ids.len()
        invariant
            i <= ids.len(),
            all == ids.deep_view(),
            *ids == *old(ids),
            forall|k: int| 0 <= k < i ==> (#[trigger] all[k]) != id@,
        decreases ids.len() - i,
    {
        assert(all[i as int] == ids@[i as int]@);
        if strs::same(ids[i].as_str(), id) {
            assert(all.contains(id@));
            return ;
        }
        i += 1;
    }
    ids.push(id.to_owned());
    assert(ids.deep_view() =~= all.push(id@));
}

pub fn snapshot_in_flight_ids(snapshot: &FrontendSnapshot) -> (ids: Vec<String>)
    ensures
        ids.deep_view() == in_flight(*snapshot),
{
    let mut ids: Vec<String> = Vec::new();
    match &snapshot.live.operation_id {
        Some(id) => {
            ids.push(id.clone());
            assert(ids.deep_view() =~= seq![id@]);
        },
        None => {
            assert(ids.deep_view() =~= Seq::<Seq<char>>::empty());
        },
    }
    let ghost live = ids.deep_view();
    let queued = &snapshot.queued;
    let mut i: usize = 0;
    proof {
        assert(queued@.take(0) =~= Seq::<QueuedOperation>::empty());
    }
    while i < queued.len()
        invariant
            i <= queued.len(),
            ids.deep_view() == with_queued(live, queued@.take(i as int)),
        decreases queued.len() - i,
    {
        proof {
            assert(queued@.take(i as int + 1).drop_last() =~= queued@.take(i as int));
        }
        add_id(&mut ids, queued[i].operation_id.as_str());
        i += 1;
    }
    proof {
        assert(queued@.take(i as int) =~= queued@);
    }
    if let FrontendAvailability::Busy { operation_id } = &snapshot.availability {
        add_id(&mut ids, operation_id.as_str());
    }
    ids
}

pub fn last_user_parts<'a>(snapshot: &'a FrontendSnapshot) -> (parts: Option<
    &'a Vec<FrontendUserPart>,
>)
    ensures
        match parts {
            Some(parts) => snapshot_parts(*snapshot) == Some(parts.deep_view()),
            None => snapshot_parts(*snapshot) is None,
        },
{
    let messages = match &snapshot.durable_session_view {
        Some(view) => &view.messages,
        None => return None,
    };
    let ghost all = messages.deep_view();
    let mut i: usize = messages.len();
    proof {
        assert(all.take(i as int) =~= all);
    }
    while i > 0
        invariant
            i <= messages.len(),
            all == messages.deep_view(),
            last_parts(all) == last_parts(all.take(i as int)),
            snapshot_parts(*snapshot) == last_parts(all),
        decreases i,
    {
        proof {
            assert(all.take(i as int).drop_last() =~= all.take(i - 1));
            assert(all.take(i as int).last() == messages@[i - 1].deep_view());
        }
        if let FrontendContextMessage::User { parts } = &messages[i - 1] {
            return Some(parts);
        }
        i -= 1;
    }
    None
}

fn has_landed(parts: &Vec<FrontendUserPart>, pending: &PendingSubmission) -> (yes: bool)
    ensures
        yes == landed(parts.deep_view(), pending.deep_view()),
{
    let ghost all = parts.deep_view();
    assert(pending.attachments.deep_view().len() == pending.attachments@.len());
    let by_text = !pending.draft.as_str().is_empty();
    if !by_text && pending.attachments.len() == 0 {
        return false;
    }
    let mut i: usize = 0;
    while i < parts.len()
        invariant
            i <= parts.len(),
            all == parts.deep_view(),
            by_text == (pending.draft@.len() > 0),
            by_text || pending.attachments.deep_view().len() > 0,
            by_text ==> forall|k: int|
                0 <= k < i ==> (#[trigger] all[k]) != PartView::Text(pending.draft@),
            !by_text ==> forall|k: int| 0 <= k < i ==> !((#[trigger] all[k]) is Image),
        decreases parts.len() - i,
    {
        assert(all[i as int] == parts@[i as int].deep_view());
        match &parts[i] {
            FrontendUserPart::Text(text) => {
                if by_text && strs::same(text.as_str(), pending.draft.as_str()) {
                    assert(all.contains(PartView::Text(pending.draft@)));
                    return true;
                }
            },
            FrontendUserPart::Image { .. } => {
                if !by_text {
                    return true;
                }
            },
        }
        i += 1;
    }
    proof {
        if by_text && all.contains(PartView::Text(pending.draft@)) {
            let k = choose|k: int| 0 <= k < all.len() && all[k] == PartView::Text(pending.draft@);
            assert(all[k] != PartView::Text(pending.draft@));
        }
    }
    false
}

pub fn operation_for_pending_intent(
    snapshot: &FrontendSnapshot,
    pending: &PendingSubmission,
) -> (operation: Option<String>)
    ensures
        operation.deep_view() == operation_for(*snapshot, pending.deep_view()),
{
    let ids = snapshot_in_flight_ids(snapshot);
    assert(ids.deep_view().len() == ids@.len());
    if ids.len() == 0 {
        return None;
    }
    match last_user_parts(snapshot) {
        Some(parts) => {
            if has_landed(parts, pending) {
                assert(ids.deep_view()[0] == ids@[0]@);
                Some(ids[0].clone())
            } else {
                None
            }
        },
        None => None,
    }
}

// ---------------------------------------------------------------------------
// The snapshot
// ---------------------------------------------------------------------------

/// The session that a snapshot shows.
pub open spec fn snapshot_session(snapshot: FrontendSnapshot) -> Option<Seq<char>> {
    match snapshot.current_session_id {
        Some(id) => Some(id@),
        None => match snapshot.durable_session_view {
            Some(view) => Some(view.session_id@),
            None => None,
        },
    }
}

/// The session of a snapshot shown, with what is stored of it.
#[verifier::opaque]
pub open spec fn snapshot_shown(
    was: AppView,
    snapshot: FrontendSnapshot,
    history: Seq<LineView>,
) -> AppView {
    let a = AppView { session_load_intent: Some(SessionLoadIntent::Snapshot), ..was };
    match snapshot_session(snapshot) {
        None => a,
        Some(id) => {
            let b = session_begun(a, id);
            match snapshot.durable_session_view {
                None => b,
                Some(view) => history_shown(
                    choice_remembered(
                        usage_restored(b, id, view.usage),
                        id,
                        view.generation.deep_view(),
                    ),
                    history,
                ),
            }
        },
    }
}

/// The usage shown, where one is given.
pub open spec fn usage_shown(a: AppView, usage: Option<FrontendTokenUsage>) -> AppView {
    match usage {
        Some(usage) => AppView { status: StatusView { usage: Some(usage), ..a.status }, ..a },
        None => a,
    }
}

/// Reasoning of the running operation: queued, or told where it is hidden.
pub open spec fn live_reasoned(a: AppView, text: Seq<char>, now: u64) -> (
    AppView,
    Seq<ProjectionView>,
) {
    if text.len() == 0 {
        (a, Seq::empty())
    } else {
        let b = AppView {
            run_state: run_state::raised(a.run_state, Phase::Thinking, now),
            ..a
        };
        if b.show_reasoning {
            (paced(b, LineKind::Reasoning, text), Seq::empty())
        } else {
            (flushed(b), pieces_written(b.stream) + seq![ProjectionView::LiveReasoning])
        }
    }
}

/// Text of the running operation, queued.
pub open spec fn live_written(a: AppView, text: Seq<char>, now: u64) -> AppView {
    if text.len() == 0 {
        a
    } else {
        paced(
            AppView { run_state: run_state::raised(a.run_state, Phase::Writing, now), ..a },
            LineKind::Answer,
            text,
        )
    }
}

/// What the running operation has produced so far.
#[verifier::opaque]
pub open spec fn live_taken(a: AppView, live: LiveOperationSnapshot, now: u64) -> (
    AppView,
    Seq<ProjectionView>,
) {
    let b = live_reasoned(usage_shown(a, live.usage), live.reasoning@, now);
    (live_written(b.0, live.text@, now), b.1)
}

/// A held message after a snapshot: admitted if it landed, put back otherwise.
#[verifier::opaque]
pub open spec fn reconciled(a: AppView, snapshot: FrontendSnapshot) -> (
    AppView,
    Seq<EffectView>,
) {
    match a.submit_state {
        SubmitView::Dispatching(pending) => match operation_for(snapshot, pending) {
            Some(operation) => submit_accepted(a, pending.intent_id, operation),
            None => interrupted(a, meta_line("提交未确认，内容已恢复"@)),
        },
        _ => (a, nothing()),
    }
}

/// The front request of a snapshot.
pub open spec fn front_of(pending: Seq<PendingConfirmation>) -> Option<PromptView> {
    if pending.len() == 0 {
        None
    } else {
        Some(
            PromptView {
                id: pending[0].confirmation_id,
                title: pending[0].title@,
                body: pending[0].body@,
            },
        )
    }
}

/// What a snapshot says besides its session and its running operation.
#[verifier::opaque]
pub open spec fn snapshot_state(a: AppView, snapshot: FrontendSnapshot, now: u64) -> AppView {
    let b = usage_shown(availability_noted(a, snapshot.availability, now), snapshot.usage);
    let c = AppView {
        status: StatusView {
            model: snapshot.generation.model_name@,
            effort: effort_shown(snapshot.generation.reasoning_effort.deep_view()),
            provider: snapshot.generation.provider.deep_view(),
            ..b.status
        },
        ..b
    };
    let d = front_shown(c, front_of(snapshot.pending_confirmations@));
    match snapshot.maintenance {
        Some(maintenance) => maintained(
            d,
            maintenance.phase,
            maintenance.message.deep_view(),
            now,
        ).0,
        None => d,
    }
}

/// A snapshot taken over; what it has to say comes behind what its running
/// operation writes.
#[verifier::opaque]
pub open spec fn snapshot_taken(
    a: AppView,
    snapshot: FrontendSnapshot,
    history: Seq<LineView>,
    now: u64,
) -> (AppView, Seq<EffectView>, Seq<ProjectionView>) {
    let live = live_taken(snapshot_shown(a, snapshot, history), snapshot.live, now);
    let b = snapshot_state(live.0, snapshot, now);
    let health = health_told(b, snapshot.health, now);
    let back = reconciled(health.0, snapshot);
    let done = said_behind(live.0.cells, ingested(back.0, back.1), live.1);
    (
        done.0,
        health.1 + back.1,
        (if snapshot_session(snapshot) is Some {
            seq![ProjectionView::Restart]
        } else {
            Seq::empty()
        }) + done.1,
    )
}

/// Behind its session and its running operation a snapshot only appends.
pub proof fn snapshot_only_appends(a: AppView, snapshot: FrontendSnapshot, now: u64)
    ensures
        ({
            let health = health_told(snapshot_state(a, snapshot, now), snapshot.health, now);
            let back = reconciled(health.0, snapshot);
            grown(a.cells, ingested(back.0, back.1).cells)
        }),
{
    let state = snapshot_state(a, snapshot, now);
    let health = health_told(state, snapshot.health, now);
    let back = reconciled(health.0, snapshot);
    assert(a.cells.lines.take(a.cells.lines.len() as int) =~= a.cells.lines);
    assert(grown(a.cells, state.cells)) by {
        reveal(snapshot_state);
        if let Some(maintenance) = snapshot.maintenance {
            let b = usage_shown(availability_noted(a, snapshot.availability, now), snapshot.usage);
            let c = AppView {
                status: StatusView {
                    model: snapshot.generation.model_name@,
                    effort: effort_shown(snapshot.generation.reasoning_effort.deep_view()),
                    provider: snapshot.generation.provider.deep_view(),
                    ..b.status
                },
                ..b
            };
            let d = front_shown(c, front_of(snapshot.pending_confirmations@));
            assert(d.cells == a.cells) by {
                reveal(availability_noted);
            }
            maintaining_grows(d, maintenance.phase, maintenance.message.deep_view(), now);
        } else {
            reveal(availability_noted);
        }
    }
    health_grows(state, snapshot.health, now);
    growing_adds_up(a.cells, state.cells, health.0.cells);
    assert(back.0.cells == health.0.cells) by {
        reveal(reconciled);
        reveal(submit_accepted);
        reveal(submit_failed);
    }
    answering_grows(back.0, back.1);
    growing_adds_up(a.cells, health.0.cells, ingested(back.0, back.1).cells);
}

// ---------------------------------------------------------------------------
// All updates
// ---------------------------------------------------------------------------

/// The preview of a session, once its rows are there.
pub open spec fn previewed(a: AppView, id: Seq<char>, rows: Seq<Seq<char>>) -> AppView {
    match a.picker {
        Some(p) => with_picker(
            a,
            PickerView { previews: with_preview(p.previews, id, PreviewView::Ready(rows)), ..p },
        ),
        None => a,
    }
}

/// The queued attachments in one row.
pub open spec fn attachment_row(a: AppView) -> Option<Seq<char>> {
    if a.attachments.len() == 0 {
        None
    } else {
        Some(join(labels_of(a.attachments), "  ·  "@))
    }
}

/// Effects without steps.
pub open spec fn no_plan(result: (AppView, Seq<EffectView>)) -> (
    AppView,
    Seq<EffectView>,
    Seq<ProjectionView>,
) {
    (result.0, result.1, Seq::empty())
}

/// One update of the service.
#[verifier::opaque]
pub open spec fn updated(
    a: AppView,
    kind: FrontendUpdateKind,
    history: Seq<LineView>,
    preview: Seq<Seq<char>>,
    unix_now: u64,
    now: u64,
) -> (AppView, Seq<EffectView>, Seq<ProjectionView>) {
    match kind {
        FrontendUpdateKind::CommandAccepted
        | FrontendUpdateKind::CompactionAccepted { .. }
        | FrontendUpdateKind::SubmitAccepted { .. }
        | FrontendUpdateKind::OperationAccepted { .. }
        | FrontendUpdateKind::ResyncRequired => no_plan((a, nothing())),
        FrontendUpdateKind::CommandRejected { reason } => no_plan(command_rejected(a, reason@)),
        FrontendUpdateKind::OperationEvent(event) => {
            let result = evented(a, event, now);
            (result.0, nothing(), result.1)
        },
        FrontendUpdateKind::AvailabilityChanged { availability, .. } => no_plan(
            (availability_noted(a, availability, now), nothing()),
        ),
        FrontendUpdateKind::MaintenanceChanged(maintenance) => no_plan(
            maintained(a, maintenance.phase, maintenance.message.deep_view(), now),
        ),
        FrontendUpdateKind::SessionLoaded { session_id, view } => {
            let result = session_loaded(
                a,
                session_id@,
                view.usage,
                view.generation.deep_view(),
                history,
            );
            (result.0, result.1, seq![ProjectionView::Restart])
        },
        FrontendUpdateKind::SessionPreviewed { session_id, .. } => no_plan(
            (previewed(a, session_id@, preview), nothing()),
        ),
        FrontendUpdateKind::SessionListLoaded { sessions } => no_plan(
            sessions_listed(a, sessions@, unix_now),
        ),
        FrontendUpdateKind::ModelListLoaded { models } => no_plan(
            catalog_loaded(
                AppView { expect_models_picker: false, ..a },
                models@,
                a.expect_models_picker,
            ),
        ),
        FrontendUpdateKind::GenerationInstalled { display } => no_plan(
            generation_installed(
                a,
                display.model_name@,
                display.reasoning_effort.deep_view(),
                display.provider.deep_view(),
            ),
        ),
        FrontendUpdateKind::GenerationInstallFailed { message } => no_plan(
            answered(
                AppView { pending_model_switch: false, ..a },
                says(not_switched(message@, a.status.model)),
            ),
        ),
        FrontendUpdateKind::ConfigChanged { entries } => config_changed(a, entries.deep_view()),
        FrontendUpdateKind::ConfirmationRequested { confirmation_id, title, body } => no_plan(
            (
                front_shown(
                    a,
                    Some(PromptView { id: confirmation_id, title: title@, body: body@ }),
                ),
                nothing(),
            ),
        ),
        FrontendUpdateKind::ConfirmationResolved { confirmation_id } => no_plan(
            (
                if a.confirm is Some && a.confirm->0.id == confirmation_id {
                    AppView { confirm: None, ..a }
                } else {
                    a
                },
                nothing(),
            ),
        ),
        FrontendUpdateKind::SnapshotReady(snapshot) => snapshot_taken(a, snapshot, history, now),
        FrontendUpdateKind::ServiceHealthChanged { health } => no_plan(
            health_told(a, health, now),
        ),
        FrontendUpdateKind::StatusReady(status) => no_plan(
            answered(
                a,
                only(
                    EffectView::Append(
                        status_listing(
                            summary(a.status),
                            attachment_row(a),
                            status.tools.deep_view(),
                        ),
                    ),
                ),
            ),
        ),
    }
}

fn effects_only(effects: Vec<Effect>) -> (reaction: Reaction)
    ensures
        reaction.effects.deep_view() == effects.deep_view(),
        reaction.plan.deep_view() == Seq::<ProjectionView>::empty(),
{
    Reaction { effects, plan: projection::no_steps() }
}

impl App {
    pub(crate) fn show_usage(&mut self, usage: Option<FrontendTokenUsage>)
        requires
            old(self).wf(),
        ensures
            final(self).wf(),
            final(self)@ == usage_shown(old(self)@, usage),
    {
        proof {
            reveal(App::model);
            reveal(App::wf);
        }
        if let Some(usage) = usage {
            self.status.usage = Some(usage);
        }
    }

    fn show_snapshot_session(&mut self, snapshot: &FrontendSnapshot, history: &Vec<TranscriptLine>)
        requires
            old(self).wf(),
        ensures
            final(self).wf(),
            final(self)@ == snapshot_shown(old(self)@, *snapshot, history.deep_view()),
    {
        proof {
            reveal(snapshot_shown);
        }
        self.expect_session_load(SessionLoadIntent::Snapshot);
        let id = match &snapshot.current_session_id {
            Some(id) => id.clone(),
            None => match &snapshot.durable_session_view {
                Some(view) => view.session_id.clone(),
                None => return ,
            },
        };
        self.begin_session(id.as_str());
        if let Some(view) = &snapshot.durable_session_view {
            self.restore_usage(id.as_str(), view.usage);
            self.remember_choice(id.as_str(), &view.generation);
            self.show_history(history);
        }
    }

    fn raise(&mut self, phase: Phase, now: u64)
        requires
            old(self).wf(),
            phase == Phase::Thinking || phase == Phase::Writing,
        ensures
            final(self).wf(),
            final(self)@ == (AppView {
                run_state: run_state::raised(old(self)@.run_state, phase, now),
                ..old(self)@
            }),
    {
        proof {
            reveal(App::model);
            reveal(App::wf);
        }
        let event = match phase {
            Phase::Thinking => FrontendOperationEvent::ReasoningDelta {
                model_call_id: String::new(),
                text: String::new(),
            },
            _ => FrontendOperationEvent::TextDelta { delta: String::new() },
        };
        self.run_state.on_event(&event, now);
    }

    fn take_live_reasoning(&mut self, text: &str, now: u64) -> (plan: Vec<Projection>)
        requires
            old(self).wf(),
        ensures
            final(self).wf(),
            (final(self)@, plan.deep_view()) == live_reasoned(old(self)@, text@, now),
    {
        if text.is_empty() {
            return projection::no_steps();
        }
        self.raise(Phase::Thinking, now);
        if self.shows_reasoning() {
            self.pace_delta(LineKind::Reasoning, text);
            return projection::no_steps();
        }
        let pieces = self.flush_stream();
        projection::then_steps(pieces, projection::one_step(Projection::LiveReasoning))
    }

    pub fn apply_live(&mut self, live: &LiveOperationSnapshot, now: u64) -> (plan: Vec<Projection>)
        requires
            old(self).wf(),
        ensures
            final(self).wf(),
            (final(self)@, plan.deep_view()) == live_taken(old(self)@, *live, now),
    {
        proof {
            reveal(live_taken);
        }
        self.show_usage(live.usage);
        let plan = self.take_live_reasoning(live.reasoning.as_str(), now);
        if !live.text.as_str().is_empty() {
            self.raise(Phase::Writing, now);
            self.pace_delta(LineKind::Answer, live.text.as_str());
        }
        plan
    }

    fn held_message(&self) -> (pending: Option<PendingSubmission>)
        ensures
            pending.deep_view() == (match self@.submit_state {
                SubmitView::Dispatching(pending) => Some(pending),
                _ => None,
            }),
    {
        proof {
            reveal(App::model);
            reveal(App::wf);
        }
        match self.submit_state.pending() {
            Some(pending) => Some(pending.copy()),
            None => None,
        }
    }

    fn reconcile_dispatching_after_snapshot(&mut self, snapshot: &FrontendSnapshot) -> (effects: Vec<
        Effect,
    >)
        requires
            old(self).wf(),
        ensures
            final(self).wf(),
            (final(self)@, effects.deep_view()) == reconciled(old(self)@, *snapshot),
    {
        proof {
            reveal(reconciled);
        }
        let pending = match self.held_message() {
            Some(pending) => pending,
            None => return effect::no_effects(),
        };
        match operation_for_pending_intent(snapshot, &pending) {
            Some(operation) => self.on_submit_accepted(pending.intent_id, operation),
            None => self.restore_pending_after_interrupt(meta("提交未确认，内容已恢复")),
        }
    }

    fn take_snapshot_state(&mut self, snapshot: &FrontendSnapshot, now: u64)
        requires
            old(self).wf(),
        ensures
            final(self).wf(),
            final(self)@ == snapshot_state(old(self)@, *snapshot, now),
    {
        proof {
            reveal(snapshot_state);
        }
        self.apply_availability(&snapshot.availability, now);
        self.show_usage(snapshot.usage);
        self.show_generation(&snapshot.generation);
        let pending = &snapshot.pending_confirmations;
        let front = if pending.len() == 0 {
            None
        } else {
            let first = &pending[0];
            Some(
                ConfirmPrompt::new(
                    first.confirmation_id,
                    first.title.as_str(),
                    first.body.as_str(),
                ),
            )
        };
        self.sync_confirmation(front);
        if let Some(maintenance) = &snapshot.maintenance {
            self.apply_maintenance(maintenance, now);
        }
    }

    /// Takes a snapshot over; `history` is the replay of its session, rendered.
    pub fn apply_snapshot(
        &mut self,
        snapshot: &FrontendSnapshot,
        history: &Vec<TranscriptLine>,
        now: u64,
    ) -> (reaction: Reaction)
        requires
            old(self).wf(),
        ensures
            final(self).wf(),
            (final(self)@, reaction.effects.deep_view(), reaction.plan.deep_view())
                == snapshot_taken(old(self)@, *snapshot, history.deep_view(), now),
    {
        proof {
            reveal(snapshot_taken);
        }
        self.show_snapshot_session(snapshot, history);
        let live = self.apply_live(&snapshot.live, now);
        let ghost lived = self@;
        let mark = self.transcript_mark();
        self.take_snapshot_state(snapshot, now);
        let mut effects = self.apply_health(&snapshot.health, now);
        let mut back = self.reconcile_dispatching_after_snapshot(snapshot);
        self.ingest_appends(&back);
        proof {
            snapshot_only_appends(lived, *snapshot, now);
        }
        let live = self.say_behind(mark, live, Ghost(lived.cells));
        let ghost told = effects.deep_view();
        let ghost more = back.deep_view();
        effects.append(&mut back);
        assert(effects.deep_view() =~= told + more);
        let restart = if snapshot.current_session_id.is_some()
            || snapshot.durable_session_view.is_some() {
            projection::one_step(Projection::Restart)
        } else {
            projection::no_steps()
        };
        Reaction { effects, plan: projection::then_steps(restart, live) }
    }

    fn take_models_wish(&mut self) -> (wanted: bool)
        requires
            old(self).wf(),
        ensures
            final(self).wf(),
            wanted == old(self)@.expect_models_picker,
            final(self)@ == (AppView { expect_models_picker: false, ..old(self)@ }),
    {
        proof {
            reveal(App::model);
            reveal(App::wf);
        }
        let wanted = self.expect_models_picker;
        self.expect_models_picker = false;
        wanted
    }

    fn resolve_confirmation(&mut self, id: u64)
        requires
            old(self).wf(),
        ensures
            final(self).wf(),
            final(self)@ == (if old(self)@.confirm is Some && old(self)@.confirm->0.id == id {
                AppView { confirm: None, ..old(self)@ }
            } else {
                old(self)@
            }),
    {
        proof {
            reveal(App::model);
            reveal(App::wf);
        }
        let shown = match &self.confirm {
            Some(prompt) => prompt.id == id,
            None => false,
        };
        if shown {
            self.confirm = None;
        }
    }

    fn fail_model_switch(&mut self, message: &str) -> (effects: Vec<Effect>)
        requires
            old(self).wf(),
        ensures
            final(self).wf(),
            (final(self)@, effects.deep_view()) == answered(
                AppView { pending_model_switch: false, ..old(self)@ },
                says(not_switched(message@, old(self)@.status.model)),
            ),
    {
        self.drop_model_switch();
        self.tell_not_switched(message)
    }

    fn status_report(&self, status: &FrontendStatus) -> (lines: Vec<TranscriptLine>)
        ensures
            lines.deep_view() == status_listing(
                summary(self@.status),
                attachment_row(self@),
                status.tools.deep_view(),
            ),
    {
        proof {
            reveal(App::model);
            reveal(App::wf);
        }
        let line = self.status.summary_line();
        let row = self.attachments.summary();
        listings::status_lines(line.as_str(), &row, status)
    }

    fn list_models_update(&mut self, models: &Vec<FrontendModelListing>) -> (effects: Vec<Effect>)
        requires
            old(self).wf(),
        ensures
            final(self).wf(),
            (final(self)@, effects.deep_view()) == catalog_loaded(
                AppView { expect_models_picker: false, ..old(self)@ },
                models@,
                old(self)@.expect_models_picker,
            ),
    {
        let wanted = self.take_models_wish();
        self.apply_model_catalog(models, wanted)
    }

    /// Applies one update. `rendered` is what the renderer made of the session
    /// view that the update carries, `unix_now` the time in seconds.
    pub fn apply_update(
        &mut self,
        kind: &FrontendUpdateKind,
        rendered: &Rendered,
        unix_now: u64,
        now: u64,
    ) -> (reaction: Reaction)
        requires
            old(self).wf(),
        ensures
            final(self).wf(),
            (final(self)@, reaction.effects.deep_view(), reaction.plan.deep_view()) == updated(
                old(self)@,
                *kind,
                rendered.history.deep_view(),
                rendered.preview.deep_view(),
                unix_now,
                now,
            ),
    {
        proof {
            reveal(updated);
        }
        match kind {
            FrontendUpdateKind::CommandAccepted
            | FrontendUpdateKind::CompactionAccepted { .. }
            | FrontendUpdateKind::SubmitAccepted { .. }
            | FrontendUpdateKind::OperationAccepted { .. }
            | FrontendUpdateKind::ResyncRequired => effects_only(effect::no_effects()),
            FrontendUpdateKind::CommandRejected { reason } => effects_only(
                self.apply_command_rejected(reason.as_str()),
            ),
            FrontendUpdateKind::OperationEvent(event) => Reaction {
                effects: effect::no_effects(),
                plan: self.on_operation_event(event, now),
            },
            FrontendUpdateKind::AvailabilityChanged { availability, .. } => {
                self.apply_availability(availability, now);
                effects_only(effect::no_effects())
            },
            FrontendUpdateKind::MaintenanceChanged(maintenance) => effects_only(
                self.apply_maintenance(maintenance, now),
            ),
            FrontendUpdateKind::SessionLoaded { session_id, view } => Reaction {
                effects: self.apply_session_loaded(session_id.as_str(), view, &rendered.history),
                plan: projection::one_step(Projection::Restart),
            },
            FrontendUpdateKind::SessionPreviewed { session_id, .. } => {
                self.set_preview(
                    session_id.as_str(),
                    Preview::Ready(strs::clone_strings(&rendered.preview)),
                );
                effects_only(effect::no_effects())
            },
            FrontendUpdateKind::SessionListLoaded { sessions } => effects_only(
                self.apply_session_list(sessions, unix_now),
            ),
            FrontendUpdateKind::ModelListLoaded { models } => effects_only(
                self.list_models_update(models),
            ),
            FrontendUpdateKind::GenerationInstalled { display } => effects_only(
                self.apply_generation_installed(display),
            ),
            FrontendUpdateKind::GenerationInstallFailed { message } => effects_only(
                self.fail_model_switch(message.as_str()),
            ),
            FrontendUpdateKind::ConfigChanged { entries } => {
                let (effects, plan) = self.apply_config_changed(entries);
                Reaction { effects, plan }
            },
            FrontendUpdateKind::ConfirmationRequested { confirmation_id, title, body } => {
                self.sync_confirmation(
                    Some(ConfirmPrompt::new(*confirmation_id, title.as_str(), body.as_str())),
                );
                effects_only(effect::no_effects())
            },
            FrontendUpdateKind::ConfirmationResolved { confirmation_id } => {
                self.resolve_confirmation(*confirmation_id);
                effects_only(effect::no_effects())
            },
            FrontendUpdateKind::SnapshotReady(snapshot) => self.apply_snapshot(
                snapshot,
                &rendered.history,
                now,
            ),
            FrontendUpdateKind::ServiceHealthChanged { health } => effects_only(
                self.apply_health(health, now),
            ),
            FrontendUpdateKind::StatusReady(status) => {
                let lines = self.status_report(status);
                effects_only(self.answer(effect::one_effect(Effect::Append(lines))))
            },
        }
    }
}

// ---------------------------------------------------------------------------
// Laws
// ---------------------------------------------------------------------------

/// After a snapshot no message is held any more: it was admitted or put back.
pub proof fn snapshots_settle_held_messages(a: AppView, snapshot: FrontendSnapshot)
    ensures
        !(reconciled(a, snapshot).0.submit_state is Dispatching),
        a.submit_state is Dispatching ==> match operation_for(
            snapshot,
            a.submit_state->Dispatching_0,
        ) {
            Some(operation) => reconciled(a, snapshot).0.submit_state == (SubmitView::Accepted {
                intent_id: a.submit_state->Dispatching_0.intent_id,
                operation_id: operation,
            }),
            None => reconciled(a, snapshot).0.submit_state is Editing,
        },
{
    reveal(reconciled);
    reveal(submit_accepted);
    reveal(super::composer::submit_failed);
}

proof fn queued_ids_are_distinct(ids: Seq<Seq<char>>, queued: Seq<QueuedOperation>)
    requires
        ids.no_duplicates(),
    ensures
        with_queued(ids, queued).no_duplicates(),
    decreases queued.len(),
{
    if queued.len() > 0 {
        queued_ids_are_distinct(ids, queued.drop_last());
    }
}

/// No operation in flight is named twice.
pub proof fn in_flight_ids_are_distinct(snapshot: FrontendSnapshot)
    ensures
        in_flight(snapshot).no_duplicates(),
{
    let live = match snapshot.live.operation_id {
        Some(id) => seq![id@],
        None => Seq::empty(),
    };
    queued_ids_are_distinct(live, snapshot.queued@);
}

/// What a snapshot says of the model, the usage, the question in front and who is
/// at work is what is shown.
pub proof fn snapshots_are_taken_over(a: AppView, snapshot: FrontendSnapshot, now: u64)
    requires
        snapshot.maintenance is None,
    ensures
        ({
            let next = snapshot_state(a, snapshot, now);
            &&& next.status.model == snapshot.generation.model_name@
            &&& next.status.provider == snapshot.generation.provider.deep_view()
            &&& snapshot.usage is Some ==> next.status.usage == snapshot.usage
            &&& snapshot.pending_confirmations@.len() == 0 ==> next.confirm is None
            &&& snapshot.pending_confirmations@.len() > 0 ==> next.confirm is Some
                && next.confirm.unwrap().id == snapshot.pending_confirmations@[0].confirmation_id
            &&& snapshot.availability is Busy ==> next.status.busy
            &&& snapshot.availability is Idle ==> !next.status.busy && !next.status.compacting
            &&& snapshot.availability is Compacting ==> next.status.compacting
        }),
{
    reveal(snapshot_state);
    reveal(super::updates::availability_noted);
}

/// A held message landed where the session's last message holds its text, or an
/// image where it has no text.
pub proof fn landed_messages_are_recognised(parts: Seq<PartView>, pending: PendingView, i: int)
    requires
        0 <= i < parts.len(),
    ensures
        pending.draft.len() > 0 && parts[i] == PartView::Text(pending.draft) ==> landed(
            parts,
            pending,
        ),
        pending.draft.len() == 0 && pending.attachments.len() > 0 && parts[i] is Image ==> landed(
            parts,
            pending,
        ),
        pending.draft.len() == 0 && pending.attachments.len() == 0 ==> !landed(parts, pending),
        pending.draft.len() > 0 && (forall|k: int|
            0 <= k < parts.len() ==> #[trigger] parts[k] != PartView::Text(pending.draft))
            ==> !landed(parts, pending),
{
    if parts[i] == PartView::Text(pending.draft) {
        assert(parts.contains(parts[i]));
    }
}

/// The last thing the user said is what counts, whatever followed it.
pub proof fn the_last_message_counts(
    before: Seq<MessageView>,
    parts: Seq<PartView>,
    after: Seq<MessageView>,
)
    requires
        forall|i: int| 0 <= i < after.len() ==> !((#[trigger] after[i]) is User),
    ensures
        last_parts(before.push(MessageView::User { parts }) + after) == Some(parts),
    decreases after.len(),
{
    let all = before.push(MessageView::User { parts }) + after;
    if after.len() == 0 {
        assert(all =~= before.push(MessageView::User { parts }));
    } else {
        let fewer = after.drop_last();
        assert forall|i: int| 0 <= i < fewer.len() implies !((#[trigger] fewer[i]) is User) by {
            assert(fewer[i] == after[i]);
        }
        the_last_message_counts(before, parts, fewer);
        assert(all.drop_last() =~= before.push(MessageView::User { parts }) + fewer);
        assert(!(after[after.len() - 1] is User));
    }
}

/// The session that a snapshot names is the current one, or the one whose history
/// it brings.
pub proof fn snapshots_name_their_session(snapshot: FrontendSnapshot)
    ensures
        snapshot.current_session_id is Some ==> snapshot_session(snapshot) == Some(
            (snapshot.current_session_id.unwrap())@,
        ),
        snapshot.current_session_id is None && snapshot.durable_session_view is None
            ==> snapshot_session(snapshot) is None,
{
}

/// What is still being written when a snapshot is taken is queued behind what
/// waits: the thought first, then the answer.
pub proof fn live_text_is_queued(a: AppView, live: LiveOperationSnapshot, now: u64)
    requires
        live.text@.len() > 0,
        live.reasoning@.len() > 0,
        a.show_reasoning,
    ensures
        live_taken(a, live, now).0.stream == a.stream.push(
            PieceText { kind: LineKind::Reasoning, text: live.reasoning@ },
        ).push(PieceText { kind: LineKind::Answer, text: live.text@ }),
{
    reveal(live_taken);
}

} // verus!
