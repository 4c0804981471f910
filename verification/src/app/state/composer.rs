//! Draft editing, submit, attachments, and recall of earlier input.

use vstd::prelude::*;

use super::browse::composing;
use super::commands::{bumped, disarmed, error, meta, meta_line, notice, notice_line, ran};
use super::commands::{error_line, remembered, synced};
use super::{jumped_bottom, jumped_top, App, AppView, FocusMode};
use crate::api::types::TuiRecovery;
use crate::app::attachment;
use crate::app::attachment::{label_of, AttachmentView, PendingAttachment};
use crate::app::effect;
use crate::app::effect::{nothing, only, says, Effect, EffectView};
use crate::app::input::{
    blank, broken, current, deleted, draft, erased, filled, moved_left, moved_right, moved_to,
    newer, older, pasted, typed, EditorView, HistoryView,
};
use crate::app::submit::{
    FrontendRequestId, IntentId, PendingSubmission, PendingView, SubmitDispatchResult, SubmitState,
    SubmitView,
};
use crate::app::transcript;
use crate::app::transcript::{user_rows, LineKind, LineView, TranscriptLine};
use crate::strs;
use crate::strs::{begins, decimal, join, split_on};

verus! {

// ---------------------------------------------------------------------------
// Editing
// ---------------------------------------------------------------------------

/// An edit begins: nothing is selected, the draft has a new generation.
pub open spec fn edit_begun(a: AppView) -> AppView {
    AppView { selection: None, ..bumped(a) }
}

/// Recall of earlier input ends.
pub open spec fn recall_ended(a: AppView) -> AppView {
    AppView { history: HistoryView { cursor: None, ..a.history }, ..a }
}

/// An edit ends: the busy `/quit` and the menu follow the draft.
pub open spec fn edit_ended(a: AppView) -> AppView {
    synced(disarmed(a))
}

pub open spec fn char_inserted(a: AppView, ch: char) -> AppView {
    edit_ended(AppView { input: typed(a.input, ch), ..recall_ended(edit_begun(a)) })
}

pub open spec fn newline_inserted(a: AppView) -> AppView {
    edit_ended(AppView { input: broken(a.input), ..recall_ended(edit_begun(a)) })
}

pub open spec fn backspaced(a: AppView) -> AppView {
    edit_ended(AppView { input: erased(a.input), ..edit_begun(a) })
}

pub open spec fn forward_deleted(a: AppView) -> AppView {
    edit_ended(AppView { input: deleted(a.input), ..edit_begun(a) })
}

/// Text pasted verbatim; an overlay swallows it.
pub open spec fn text_pasted(a: AppView, text: Seq<char>) -> AppView {
    if a.confirm is Some || a.picker is Some {
        a
    } else {
        edit_ended(
            AppView {
                input: pasted(a.input, text),
                exit_armed: false,
                ..recall_ended(edit_begun(a))
            },
        )
    }
}

/// The cursor at the start of its line; one that is there jumps the transcript.
pub open spec fn homed(a: AppView, now: u64) -> AppView {
    if a.input.col == 0 {
        jumped_top(a, now)
    } else {
        AppView { input: EditorView { col: 0, preferred: None, ..a.input }, ..a }
    }
}

/// The cursor at the end of its line; one that is there jumps the transcript.
pub open spec fn ended(a: AppView, now: u64) -> AppView {
    if a.input.col == current(a.input).len() {
        jumped_bottom(a, now)
    } else {
        AppView {
            input: EditorView {
                col: current(a.input).len() as int,
                preferred: None,
                ..a.input
            },
            ..a
        }
    }
}

/// A recalled text in the editor, or nothing recalled.
pub open spec fn recalled(a: AppView, found: (HistoryView, Option<Seq<char>>)) -> AppView {
    match found.1 {
        Some(text) => synced(AppView { history: found.0, input: filled(text), ..bumped(a) }),
        None => AppView { history: found.0, ..a },
    }
}

/// One line up, or the previous submission on the first line.
pub open spec fn went_up(a: AppView) -> AppView {
    if a.input.row > 0 {
        AppView { input: moved_to(a.input, a.input.row - 1), ..a }
    } else {
        recalled(a, older(a.history, draft(a.input)))
    }
}

/// One line down, or the next submission on the last line.
pub open spec fn went_down(a: AppView) -> AppView {
    if a.input.row + 1 < a.input.lines.len() {
        AppView { input: moved_to(a.input, a.input.row + 1), ..a }
    } else {
        recalled(a, newer(a.history))
    }
}

/// Whether the editor holds nothing.
pub open spec fn empty_draft(a: AppView) -> bool {
    a.input.lines.len() == 1 && a.input.lines[0].len() == 0
}

// ---------------------------------------------------------------------------
// Submitting
// ---------------------------------------------------------------------------

/// The id after an intent id: ids count up and skip zero.
pub open spec fn next_intent(id: IntentId) -> IntentId {
    if id == u64::MAX {
        1
    } else {
        (id + 1) as u64
    }
}

/// What is said of a message that has to wait.
pub open spec fn waiting_notice(a: AppView) -> Seq<EffectView> {
    if a.status.compacting {
        says(meta_line("compacting: the message is queued behind context maintenance"@))
    } else if a.status.busy {
        says(meta_line("busy: the message is queued behind the active turn"@))
    } else {
        nothing()
    }
}

/// A message held for dispatch, with all attachments.
#[verifier::opaque]
pub open spec fn dispatched(a: AppView, text: Seq<char>) -> (AppView, Seq<EffectView>) {
    (
        AppView {
            quit_armed: false,
            attachments: Seq::empty(),
            next_intent_id: next_intent(a.next_intent_id),
            submit_state: SubmitView::Dispatching(
                PendingView {
                    intent_id: a.next_intent_id,
                    draft: text,
                    attachments: a.attachments,
                    request_id: None,
                    held_generation: a.draft_generation,
                },
            ),
            ..a
        },
        waiting_notice(a).push(
            EffectView::PrepareSubmit {
                intent_id: a.next_intent_id,
                text,
                attachments: a.attachments,
            },
        ),
    )
}

/// The draft taken out of the editor.
pub open spec fn draft_taken(a: AppView) -> AppView {
    AppView { input: blank(), completion: None, ..bumped(a) }
}

/// The focus where a message is sent from: at the tail, in the composer.
pub open spec fn at_tail(a: AppView, now: u64) -> AppView {
    let b = AppView { selection: None, ..a };
    if b.focus == FocusMode::Browse {
        jumped_bottom(composing(b), now)
    } else {
        b
    }
}

/// The draft submitted: a `/` line runs as a command, anything else is held for
/// dispatch. Nothing happens on an empty prompt or while a message is held.
#[verifier::opaque]
pub open spec fn submitted(was: AppView, now: u64) -> (AppView, Seq<EffectView>) {
    let a = at_tail(was, now);
    let text = draft(a.input);
    if empty_draft(a) && a.attachments.len() == 0 {
        (a, nothing())
    } else if a.submit_state is Dispatching {
        (a, says(notice_line("submit already in flight; wait for it to finish or fail"@)))
    } else if begins(text, "/"@) {
        let b = draft_taken(a);
        ran(AppView { history: remembered(b.history, text), ..b }, text, now)
    } else {
        dispatched(draft_taken(a), text)
    }
}

/// The pending message of that intent.
pub open spec fn pending_of(a: AppView, intent_id: IntentId) -> Option<PendingView> {
    match a.submit_state {
        SubmitView::Dispatching(pending) if pending.intent_id == intent_id => Some(pending),
        _ => None,
    }
}

/// A text back in the editor, and attachments behind those queued.
pub open spec fn draft_restored(
    a: AppView,
    text: Seq<char>,
    items: Seq<AttachmentView>,
) -> AppView {
    synced(
        AppView { input: filled(text), attachments: a.attachments + items, ..bumped(a) },
    )
}

/// The contents of a held message put back. A newer draft keeps its text, and
/// gets the attachments only if it has none.
pub open spec fn contents_restored(
    a: AppView,
    pending: PendingView,
    items: Seq<AttachmentView>,
) -> (AppView, bool) {
    if a.draft_generation == pending.held_generation {
        (draft_restored(a, pending.draft, items), true)
    } else if a.attachments.len() == 0 && items.len() > 0 {
        (AppView { attachments: a.attachments + items, ..bumped(a) }, false)
    } else {
        (a, false)
    }
}

/// The state back to editing.
pub open spec fn editing(a: AppView) -> AppView {
    AppView { submit_state: SubmitView::Editing, ..a }
}

/// A held message that could not be sent.
#[verifier::opaque]
pub open spec fn submit_failed(a: AppView, intent_id: IntentId, line: LineView) -> (
    AppView,
    Seq<EffectView>,
) {
    match pending_of(a, intent_id) {
        None => (a, nothing()),
        Some(pending) => {
            let back = contents_restored(editing(a), pending, pending.attachments);
            (
                back.0,
                only(
                    EffectView::Append(
                        if back.1 {
                            seq![line]
                        } else {
                            seq![line, notice_line("submit was not sent; draft left as edited"@)]
                        },
                    ),
                ),
            )
        },
    }
}

/// A held message whose attachments could not all be read.
#[verifier::opaque]
pub open spec fn media_refused(
    a: AppView,
    intent_id: IntentId,
    kept: Seq<AttachmentView>,
    errors: Seq<Seq<char>>,
) -> (AppView, Seq<EffectView>) {
    match pending_of(a, intent_id) {
        None => (a, nothing()),
        Some(pending) => {
            let back = contents_restored(editing(a), pending, kept);
            (back.0, only(EffectView::ShowRefusal { errors, restored: back.1 }))
        },
    }
}

/// How the dispatch of a held message ended.
#[verifier::opaque]
pub open spec fn dispatch_finished(
    a: AppView,
    intent_id: IntentId,
    result: SubmitDispatchResult,
) -> (AppView, Seq<EffectView>) {
    match result {
        SubmitDispatchResult::Enqueued(request_id) => (
            match pending_of(a, intent_id) {
                Some(pending) => AppView {
                    submit_state: SubmitView::Dispatching(
                        PendingView { request_id: Some(request_id), ..pending },
                    ),
                    ..a
                },
                None => a,
            },
            nothing(),
        ),
        SubmitDispatchResult::Backpressured => submit_failed(
            a,
            intent_id,
            notice_line("服务繁忙，提交未发送"@),
        ),
        SubmitDispatchResult::Disconnected { lane } => submit_failed(
            a,
            intent_id,
            error_line("error: frontend disconnected ("@ + lane@ + "); submit not sent"@),
        ),
    }
}

/// The rows of a sent message: its lines, then its attachments.
pub open spec fn message_rows(pending: PendingView) -> Seq<Seq<char>> {
    (if pending.draft.len() > 0 {
        split_on(pending.draft, '\n')
    } else {
        Seq::empty()
    }) + Seq::new(
        pending.attachments.len(),
        |i: int| "[attached "@ + label_of(pending.attachments[i]) + "]"@,
    )
}

/// A held message admitted: it enters the transcript and the recall.
#[verifier::opaque]
pub open spec fn submit_accepted(a: AppView, intent_id: IntentId, operation_id: Seq<char>) -> (
    AppView,
    Seq<EffectView>,
) {
    match pending_of(a, intent_id) {
        None => (a, nothing()),
        Some(pending) => (
            AppView {
                history: if pending.draft.len() > 0 {
                    remembered(a.history, pending.draft)
                } else {
                    a.history
                },
                submit_state: SubmitView::Accepted { intent_id, operation_id },
                ..a
            },
            only(EffectView::Append(user_rows(message_rows(pending)))),
        ),
    }
}

/// An image queued from the clipboard.
pub open spec fn image_attached(a: AppView, image: AttachmentView) -> (AppView, Seq<EffectView>) {
    let items = a.attachments.push(image);
    (
        AppView { attachments: items, ..bumped(a) },
        says(
            meta_line(
                "attached: "@ + label_of(image) + " ("@ + decimal(items.len())
                    + " waiting for the next message)"@,
            ),
        ),
    )
}

/// The draft of an earlier run taken over: whole into a pristine composer, and
/// as attachments alone where a newer edit has none.
pub open spec fn recovered(
    a: AppView,
    text: Seq<char>,
    items: Seq<AttachmentView>,
) -> (AppView, bool) {
    if (text.len() == 0 && items.len() == 0) || !(a.submit_state is Editing) {
        (a, false)
    } else if a.draft_generation == 0 && empty_draft(a) {
        (draft_restored(a, text, items), true)
    } else if a.attachments.len() == 0 {
        (AppView { attachments: items, ..bumped(a) }, false)
    } else {
        (a, false)
    }
}

/// What a run that ends leaves for the next: the held message unless it was
/// admitted or edited since, the composer's contents otherwise.
pub open spec fn left_over(a: AppView) -> (Seq<char>, Seq<AttachmentView>) {
    match a.submit_state {
        SubmitView::Dispatching(pending) => if a.draft_generation == pending.held_generation {
            (pending.draft, pending.attachments)
        } else {
            (
                draft(a.input),
                if a.attachments.len() == 0 {
                    pending.attachments
                } else {
                    a.attachments
                },
            )
        },
        _ => (draft(a.input), a.attachments),
    }
}

impl App {
    pub(crate) fn begin_edit(&mut self)
        requires
            old(self).wf(),
        ensures
            final(self).wf(),
            final(self)@ == edit_begun(old(self)@),
    {
        proof {
            reveal(App::model);
            reveal(App::wf);
        }
        self.selection = None;
        self.draft_generation = self.draft_generation.wrapping_add(1);
    }

    fn end_recall(&mut self)
        requires
            old(self).wf(),
        ensures
            final(self).wf(),
            final(self)@ == recall_ended(old(self)@),
    {
        proof {
            reveal(App::model);
            reveal(App::wf);
        }
        self.history.reset_browse();
    }

    fn end_edit(&mut self)
        requires
            old(self).wf(),
        ensures
            final(self).wf(),
            final(self)@ == edit_ended(old(self)@),
    {
        self.disarm_quit_unless_typing_quit();
        self.sync_completion();
    }

    fn type_char(&mut self, ch: char)
        requires
            old(self).wf(),
            old(self)@.input.col < usize::MAX,
        ensures
            final(self).wf(),
            final(self)@ == (AppView { input: typed(old(self)@.input, ch), ..old(self)@ }),
    {
        proof {
            reveal(App::model);
            reveal(App::wf);
        }
        self.input.insert_char(ch);
    }

    fn type_newline(&mut self)
        requires
            old(self).wf(),
            old(self)@.input.lines.len() < usize::MAX,
        ensures
            final(self).wf(),
            final(self)@ == (AppView { input: broken(old(self)@.input), ..old(self)@ }),
    {
        proof {
            reveal(App::model);
            reveal(App::wf);
        }
        self.input.insert_newline();
    }

    fn type_text(&mut self, text: &str)
        requires
            old(self).wf(),
            old(self)@.input.col + text@.len() <= usize::MAX,
            old(self)@.input.lines.len() + text@.len() <= usize::MAX,
        ensures
            final(self).wf(),
            final(self)@ == (AppView { input: pasted(old(self)@.input, text@), ..old(self)@ }),
    {
        proof {
            reveal(App::model);
            reveal(App::wf);
        }
        self.input.insert_str(text);
    }

    fn erase(&mut self, forward: bool)
        requires
            old(self).wf(),
        ensures
            final(self).wf(),
            final(self)@ == (AppView {
                input: if forward {
                    deleted(old(self)@.input)
                } else {
                    erased(old(self)@.input)
                },
                ..old(self)@
            }),
    {
        proof {
            reveal(App::model);
            reveal(App::wf);
        }
        if forward {
            self.input.delete();
        } else {
            self.input.backspace();
        }
    }

    fn fill(&mut self, text: &str)
        requires
            old(self).wf(),
        ensures
            final(self).wf(),
            final(self)@ == (AppView { input: filled(text@), ..old(self)@ }),
    {
        proof {
            reveal(App::model);
            reveal(App::wf);
        }
        self.input.set_text(text);
    }

    fn queue(&mut self, items: Vec<PendingAttachment>)
        requires
            old(self).wf(),
        ensures
            final(self).wf(),
            final(self)@ == (AppView {
                attachments: old(self)@.attachments + items.deep_view(),
                ..old(self)@
            }),
    {
        proof {
            reveal(App::model);
            reveal(App::wf);
        }
        self.attachments.extend(items);
    }

    fn disarm_exit(&mut self)
        requires
            old(self).wf(),
        ensures
            final(self).wf(),
            final(self)@ == (AppView { exit_armed: false, ..old(self)@ }),
    {
        proof {
            reveal(App::model);
            reveal(App::wf);
        }
        self.exit_armed = false;
    }

    fn remember(&mut self, text: &str)
        requires
            old(self).wf(),
        ensures
            final(self).wf(),
            final(self)@ == (AppView {
                history: remembered(old(self)@.history, text@),
                ..old(self)@
            }),
    {
        proof {
            reveal(App::model);
            reveal(App::wf);
        }
        self.history.push(text.to_owned());
    }

    pub fn attachments(&self) -> (attachments: &crate::app::attachment::Attachments)
        ensures
            *attachments == self.attachments,
            attachments.queued() == self@.attachments,
    {
        proof {
            reveal(App::model);
            reveal(App::wf);
        }
        &self.attachments
    }

    pub fn submit_state(&self) -> (state: &SubmitState)
        ensures
            *state == self.submit_state,
            state.deep_view() == self@.submit_state,
    {
        proof {
            reveal(App::model);
            reveal(App::wf);
        }
        &self.submit_state
    }

    /// Restores a previous instance only while this composer is still pristine.
    /// A newer local edit wins, but can still receive attachments.
    pub fn apply_recovery(&mut self, recovery: TuiRecovery) -> (restored: bool)
        requires
            old(self).wf(),
        ensures
            final(self).wf(),
            (final(self)@, restored) == recovered(
                old(self)@,
                recovery.draft@,
                recovery.attachments.deep_view(),
            ),
    {
        proof {
            reveal(App::model);
            reveal(App::wf);
        }
        let editing = match &self.submit_state {
            SubmitState::Editing => true,
            _ => false,
        };
        assert(recovery.attachments.deep_view().len() == recovery.attachments@.len());
        if recovery.is_empty() || !editing {
            return false;
        }
        let text = recovery.draft;
        let items = attachment::from_recoveries(recovery.attachments);
        if self.draft_generation == 0 && self.input.is_empty() {
            self.restore_draft(text.as_str(), items);
            return true;
        }
        if self.attachments.is_empty() {
            let ghost before = self@;
            self.bump_draft_generation();
            self.queue(items);
            assert(before.attachments + items.deep_view() =~= items.deep_view());
        }
        false
    }

    /// Consumes the composer's contents as the run ends.
    pub fn into_recovery(self) -> (recovery: Option<TuiRecovery>)
        requires
            self.wf(),
        ensures
            match recovery {
                Some(recovery) => {
                    &&& recovery.draft@ == left_over(self@).0
                    &&& recovery.attachments.deep_view() == left_over(self@).1
                    &&& recovery.draft@.len() > 0 || recovery.attachments@.len() > 0
                },
                None => left_over(self@).0.len() == 0 && left_over(self@).1.len() == 0,
            },
    {
        proof {
            reveal(App::model);
            reveal(App::wf);
        }
        let generation = self.draft_generation;
        let mut composer = self.input;
        let mut queued = self.attachments;
        let typed_text = composer.take_text();
        let (text, items) = match self.submit_state {
            SubmitState::Editing | SubmitState::Accepted { .. } => (typed_text, queued.take()),
            SubmitState::Dispatching(pending) => {
                if generation == pending.held_generation {
                    (pending.draft, pending.attachments)
                } else if queued.is_empty() {
                    (typed_text, pending.attachments)
                } else {
                    (typed_text, queued.take())
                }
            },
        };
        assert(items.deep_view().len() == items@.len());
        let recovery = TuiRecovery { draft: text, attachments: attachment::into_recoveries(items) };
        assert(recovery.attachments.deep_view().len() == recovery.attachments@.len());
        if recovery.is_empty() {
            None
        } else {
            Some(recovery)
        }
    }

    /// Pastes text verbatim; a paste never submits.
    pub fn on_paste(&mut self, text: &str)
        requires
            old(self).wf(),
            old(self)@.input.col + text@.len() <= usize::MAX,
            old(self)@.input.lines.len() + text@.len() <= usize::MAX,
        ensures
            final(self).wf(),
            final(self)@ == text_pasted(old(self)@, text@),
    {
        if self.has_overlay() {
            return ;
        }
        self.disarm_exit();
        self.begin_edit();
        self.end_recall();
        self.type_text(text);
        self.end_edit();
    }

    /// Queues an image the driver decoded from the clipboard.
    pub fn attach_image(&mut self, media_type: String, bytes: Vec<u8>, origin: &str) -> (effects:
        Vec<Effect>)
        requires
            old(self).wf(),
        ensures
            final(self).wf(),
            (final(self)@, effects.deep_view()) == image_attached(
                old(self)@,
                AttachmentView::Image {
                    media_type: media_type@,
                    bytes: bytes@,
                    origin: origin@,
                },
            ),
    {
        proof {
            reveal(App::model);
            reveal(App::wf);
        }
        self.bump_draft_generation();
        let image = PendingAttachment::Image { media_type, bytes, origin: origin.to_owned() };
        let label = image.label();
        self.attachments.push(image);
        let mut text = strs::cat3("attached: ", label.as_str(), " (");
        text.push_str(strs::number(self.attachments.len() as u64).as_str());
        text.push_str(" waiting for the next message)");
        effect::say(meta(text.as_str()))
    }

    /// The clipboard held nothing usable: says so and points at `/image`.
    pub fn clipboard_unavailable(&self, reason: &str) -> (effects: Vec<Effect>)
        ensures
            effects.deep_view() == says(
                meta_line(
                    "no image on the clipboard ("@ + reason@
                        + "); attach a file with /image <path>"@,
                ),
            ),
    {
        let text = strs::cat3(
            "no image on the clipboard (",
            reason,
            "); attach a file with /image <path>",
        );
        effect::say(meta(text.as_str()))
    }

    /// Puts a refused message back for editing.
    pub fn restore_draft(&mut self, text: &str, attachments: Vec<PendingAttachment>)
        requires
            old(self).wf(),
        ensures
            final(self).wf(),
            final(self)@ == draft_restored(old(self)@, text@, attachments.deep_view()),
    {
        self.bump_draft_generation();
        self.fill(text);
        self.queue(attachments);
        self.sync_completion();
    }

    pub fn insert_char(&mut self, ch: char)
        requires
            old(self).wf(),
            old(self)@.input.col < usize::MAX,
        ensures
            final(self).wf(),
            final(self)@ == char_inserted(old(self)@, ch),
    {
        self.begin_edit();
        self.end_recall();
        self.type_char(ch);
        self.end_edit();
    }

    pub fn insert_newline(&mut self)
        requires
            old(self).wf(),
            old(self)@.input.lines.len() < usize::MAX,
        ensures
            final(self).wf(),
            final(self)@ == newline_inserted(old(self)@),
    {
        self.begin_edit();
        self.end_recall();
        self.type_newline();
        self.end_edit();
    }

    pub fn backspace(&mut self)
        requires
            old(self).wf(),
        ensures
            final(self).wf(),
            final(self)@ == backspaced(old(self)@),
    {
        self.begin_edit();
        self.erase(false);
        self.end_edit();
    }

    pub fn delete(&mut self)
        requires
            old(self).wf(),
        ensures
            final(self).wf(),
            final(self)@ == forward_deleted(old(self)@),
    {
        self.begin_edit();
        self.erase(true);
        self.end_edit();
    }

    pub fn move_left(&mut self)
        requires
            old(self).wf(),
        ensures
            final(self).wf(),
            final(self)@ == (AppView { input: moved_left(old(self)@.input), ..old(self)@ }),
    {
        proof {
            reveal(App::model);
            reveal(App::wf);
        }
        self.input.move_left();
    }

    pub fn move_right(&mut self)
        requires
            old(self).wf(),
        ensures
            final(self).wf(),
            final(self)@ == (AppView { input: moved_right(old(self)@.input), ..old(self)@ }),
    {
        proof {
            reveal(App::model);
            reveal(App::wf);
        }
        self.input.move_right();
    }

    pub fn home(&mut self, now: u64)
        requires
            old(self).wf(),
        ensures
            final(self).wf(),
            final(self)@ == homed(old(self)@, now),
    {
        proof {
            reveal(App::model);
            reveal(App::wf);
        }
        if self.input.at_line_start() {
            self.jump_transcript_top(now);
        } else {
            self.input.home();
        }
    }

    pub fn end(&mut self, now: u64)
        requires
            old(self).wf(),
        ensures
            final(self).wf(),
            final(self)@ == ended(old(self)@, now),
    {
        proof {
            reveal(App::model);
            reveal(App::wf);
        }
        if self.input.at_line_end() {
            self.jump_transcript_bottom(now);
        } else {
            self.input.end();
        }
    }

    pub fn move_up(&mut self)
        requires
            old(self).wf(),
        ensures
            final(self).wf(),
            final(self)@ == went_up(old(self)@),
    {
        proof {
            reveal(App::model);
            reveal(App::wf);
        }
        if !self.input.move_up() {
            self.history_prev();
        }
    }

    pub fn move_down(&mut self)
        requires
            old(self).wf(),
        ensures
            final(self).wf(),
            final(self)@ == went_down(old(self)@),
    {
        proof {
            reveal(App::model);
            reveal(App::wf);
        }
        if !self.input.move_down() {
            self.history_next();
        }
    }

    fn history_prev(&mut self)
        requires
            old(self).wf(),
        ensures
            final(self).wf(),
            final(self)@ == recalled(old(self)@, older(old(self)@.history, draft(old(self)@.input))),
    {
        proof {
            reveal(App::model);
            reveal(App::wf);
        }
        let text = self.input.text();
        let found = self.history.prev(text.as_str());
        if let Some(text) = found {
            self.bump_draft_generation();
            self.fill(text.as_str());
            self.sync_completion();
        }
    }

    fn history_next(&mut self)
        requires
            old(self).wf(),
        ensures
            final(self).wf(),
            final(self)@ == recalled(old(self)@, newer(old(self)@.history)),
    {
        proof {
            reveal(App::model);
            reveal(App::wf);
        }
        let found = self.history.next();
        if let Some(text) = found {
            self.bump_draft_generation();
            self.fill(text.as_str());
            self.sync_completion();
        }
    }

    /// The focus back in the composer and the view at the tail.
    fn go_to_tail(&mut self, now: u64)
        requires
            old(self).wf(),
        ensures
            final(self).wf(),
            final(self)@ == at_tail(old(self)@, now),
    {
        self.clear_selection();
        if self.in_browse_mode() {
            self.exit_browse();
            self.jump_transcript_bottom(now);
        }
    }

    fn has_empty_draft(&self) -> (yes: bool)
        requires
            self.wf(),
        ensures
            yes == empty_draft(self@),
    {
        proof {
            reveal(App::model);
            reveal(App::wf);
        }
        self.input.is_empty()
    }

    fn nothing_queued(&self) -> (yes: bool)
        ensures
            yes == (self@.attachments.len() == 0),
    {
        proof {
            reveal(App::model);
            reveal(App::wf);
        }
        self.attachments.is_empty()
    }

    fn is_dispatching(&self) -> (yes: bool)
        ensures
            yes == (self@.submit_state is Dispatching),
    {
        proof {
            reveal(App::model);
            reveal(App::wf);
        }
        match &self.submit_state {
            SubmitState::Dispatching(_) => true,
            _ => false,
        }
    }

    fn take_draft(&mut self) -> (text: String)
        requires
            old(self).wf(),
        ensures
            final(self).wf(),
            final(self)@ == draft_taken(old(self)@),
            text@ == draft(old(self)@.input),
    {
        proof {
            reveal(App::model);
            reveal(App::wf);
        }
        let text = self.input.take_text();
        self.bump_draft_generation();
        self.completion = None;
        text
    }

    /// Holds a message with all attachments.
    fn hold(&mut self, text: String) -> (effects: Vec<Effect>)
        requires
            old(self).wf(),
        ensures
            final(self).wf(),
            (final(self)@, effects.deep_view()) == dispatched(old(self)@, text@),
    {
        proof {
            reveal(App::model);
            reveal(App::wf);
            reveal(dispatched);
        }
        self.quit_armed = false;
        let attachments = self.attachments.take();
        let intent_id = self.next_intent_id;
        self.next_intent_id = if intent_id == u64::MAX {
            1
        } else {
            intent_id + 1
        };
        self.submit_state = SubmitState::Dispatching(
            PendingSubmission {
                intent_id,
                draft: text.clone(),
                attachments: attachment::copy_attachments(&attachments),
                request_id: None,
                held_generation: self.draft_generation,
            },
        );
        let mut effects = if self.status.compacting {
            effect::say(meta("compacting: the message is queued behind context maintenance"))
        } else if self.status.busy {
            effect::say(meta("busy: the message is queued behind the active turn"))
        } else {
            effect::no_effects()
        };
        let ghost before = effects.deep_view();
        let prepare = Effect::PrepareSubmit { intent_id, text, attachments };
        effects.push(prepare);
        proof {
            assert(effects.deep_view() =~= before.push(prepare.deep_view()));
        }
        effects
    }

    /// Submits the draft.
    pub fn submit(&mut self, now: u64) -> (effects: Vec<Effect>)
        requires
            old(self).wf(),
        ensures
            final(self).wf(),
            (final(self)@, effects.deep_view()) == submitted(old(self)@, now),
    {
        proof {
            reveal(submitted);
        }
        self.go_to_tail(now);
        if self.has_empty_draft() && self.nothing_queued() {
            return effect::no_effects();
        }
        if self.is_dispatching() {
            return effect::say(notice("submit already in flight; wait for it to finish or fail"));
        }
        let text = self.take_draft();
        if strs::starts_with(text.as_str(), "/") {
            self.remember(text.as_str());
            return self.run_command(text.as_str(), now);
        }
        self.hold(text)
    }

    /// Takes the pending message of that intent out.
    fn take_pending_if(&mut self, intent_id: IntentId) -> (pending: Option<PendingSubmission>)
        requires
            old(self).wf(),
        ensures
            final(self).wf(),
            pending.deep_view() == pending_of(old(self)@, intent_id),
            final(self)@ == (if pending is Some {
                editing(old(self)@)
            } else {
                old(self)@
            }),
    {
        proof {
            reveal(App::model);
            reveal(App::wf);
        }
        let wanted = match &self.submit_state {
            SubmitState::Dispatching(pending) => pending.intent_id == intent_id,
            _ => false,
        };
        if !wanted {
            return None;
        }
        let mut state = SubmitState::Editing;
        std::mem::swap(&mut state, &mut self.submit_state);
        match state {
            SubmitState::Dispatching(pending) => Some(pending),
            _ => None,
        }
    }

    /// Puts the contents of a held message back; returns whether its text came
    /// back.
    fn restore_pending_contents(
        &mut self,
        pending: &PendingSubmission,
        attachments: Vec<PendingAttachment>,
    ) -> (restored: bool)
        requires
            old(self).wf(),
        ensures
            final(self).wf(),
            (final(self)@, restored) == contents_restored(
                old(self)@,
                pending.deep_view(),
                attachments.deep_view(),
            ),
    {
        assert(attachments.deep_view().len() == attachments@.len());
        if self.generation() == pending.held_generation {
            self.restore_draft(pending.draft.as_str(), attachments);
            return true;
        }
        if self.nothing_queued() && attachments.len() > 0 {
            self.bump_draft_generation();
            self.queue(attachments);
        }
        false
    }

    fn generation(&self) -> (generation: u64)
        ensures
            generation == self@.draft_generation,
    {
        proof {
            reveal(App::model);
            reveal(App::wf);
        }
        self.draft_generation
    }

    pub fn on_submit_media_refused(
        &mut self,
        intent_id: IntentId,
        kept: Vec<PendingAttachment>,
        errors: Vec<String>,
    ) -> (effects: Vec<Effect>)
        requires
            old(self).wf(),
        ensures
            final(self).wf(),
            (final(self)@, effects.deep_view()) == media_refused(
                old(self)@,
                intent_id,
                kept.deep_view(),
                errors.deep_view(),
            ),
    {
        proof {
            reveal(media_refused);
        }
        let pending = match self.take_pending_if(intent_id) {
            Some(pending) => pending,
            None => return effect::no_effects(),
        };
        let restored = self.restore_pending_contents(&pending, kept);
        effect::one_effect(Effect::ShowRefusal { errors, restored })
    }

    fn note_enqueued(&mut self, intent_id: IntentId, request_id: FrontendRequestId)
        requires
            old(self).wf(),
        ensures
            final(self).wf(),
            final(self)@ == (match pending_of(old(self)@, intent_id) {
                Some(pending) => AppView {
                    submit_state: SubmitView::Dispatching(
                        PendingView { request_id: Some(request_id), ..pending },
                    ),
                    ..old(self)@
                },
                None => old(self)@,
            }),
    {
        proof {
            reveal(App::model);
            reveal(App::wf);
        }
        let found = match &self.submit_state {
            SubmitState::Dispatching(pending) => {
                if pending.intent_id == intent_id {
                    let mut held = pending.copy();
                    held.request_id = Some(request_id);
                    Some(held)
                } else {
                    None
                }
            },
            _ => None,
        };
        if let Some(held) = found {
            self.submit_state = SubmitState::Dispatching(held);
        }
    }

    pub fn on_submit_dispatch_finished(
        &mut self,
        intent_id: IntentId,
        result: SubmitDispatchResult,
    ) -> (effects: Vec<Effect>)
        requires
            old(self).wf(),
        ensures
            final(self).wf(),
            (final(self)@, effects.deep_view()) == dispatch_finished(
                old(self)@,
                intent_id,
                result,
            ),
    {
        proof {
            reveal(dispatch_finished);
        }
        match result {
            SubmitDispatchResult::Enqueued(request_id) => {
                self.note_enqueued(intent_id, request_id);
                effect::no_effects()
            },
            SubmitDispatchResult::Backpressured => self.fail_pending_submit(
                intent_id,
                notice("服务繁忙，提交未发送"),
            ),
            SubmitDispatchResult::Disconnected { lane } => {
                let text = strs::cat3(
                    "error: frontend disconnected (",
                    lane,
                    "); submit not sent",
                );
                self.fail_pending_submit(intent_id, error(text.as_str()))
            },
        }
    }

    pub fn on_submit_command_rejected(&mut self, intent_id: IntentId, reason: &str) -> (effects:
        Vec<Effect>)
        requires
            old(self).wf(),
        ensures
            final(self).wf(),
            (final(self)@, effects.deep_view()) == submit_failed(
                old(self)@,
                intent_id,
                error_line("error: "@ + reason@),
            ),
    {
        let text = strs::cat("error: ", reason);
        self.fail_pending_submit(intent_id, error(text.as_str()))
    }

    pub fn on_submit_accepted(&mut self, intent_id: IntentId, operation_id: String) -> (effects:
        Vec<Effect>)
        requires
            old(self).wf(),
        ensures
            final(self).wf(),
            (final(self)@, effects.deep_view()) == submit_accepted(
                old(self)@,
                intent_id,
                operation_id@,
            ),
    {
        proof {
            reveal(submit_accepted);
        }
        let pending = match self.take_pending_if(intent_id) {
            Some(pending) => pending,
            None => return effect::no_effects(),
        };
        let rows = sent_rows(&pending);
        let lines = transcript::user_block(&rows);
        if !pending.draft.as_str().is_empty() {
            self.remember(pending.draft.as_str());
        }
        self.commit(intent_id, operation_id);
        effect::one_effect(Effect::Append(lines))
    }

    fn commit(&mut self, intent_id: IntentId, operation_id: String)
        requires
            old(self).wf(),
        ensures
            final(self).wf(),
            final(self)@ == (AppView {
                submit_state: SubmitView::Accepted { intent_id, operation_id: operation_id@ },
                ..old(self)@
            }),
    {
        proof {
            reveal(App::model);
            reveal(App::wf);
        }
        self.submit_state = SubmitState::Accepted { intent_id, operation_id };
    }

    /// Puts a held message back after the runtime was interrupted.
    pub(crate) fn restore_pending_after_interrupt(&mut self, line: TranscriptLine) -> (effects: Vec<
        Effect,
    >)
        requires
            old(self).wf(),
        ensures
            final(self).wf(),
            (final(self)@, effects.deep_view()) == interrupted(old(self)@, line.deep_view()),
    {
        let id = match self.pending_intent() {
            Some(id) => id,
            None => return effect::no_effects(),
        };
        self.fail_pending_submit(id, line)
    }

    fn pending_intent(&self) -> (id: Option<IntentId>)
        ensures
            id == (match self@.submit_state {
                SubmitView::Dispatching(pending) => Some(pending.intent_id),
                _ => None,
            }),
    {
        proof {
            reveal(App::model);
            reveal(App::wf);
        }
        match &self.submit_state {
            SubmitState::Dispatching(pending) => Some(pending.intent_id),
            _ => None,
        }
    }

    fn fail_pending_submit(&mut self, intent_id: IntentId, line: TranscriptLine) -> (effects: Vec<
        Effect,
    >)
        requires
            old(self).wf(),
        ensures
            final(self).wf(),
            (final(self)@, effects.deep_view()) == submit_failed(
                old(self)@,
                intent_id,
                line.deep_view(),
            ),
    {
        proof {
            reveal(submit_failed);
        }
        let pending = match self.take_pending_if(intent_id) {
            Some(pending) => pending,
            None => return effect::no_effects(),
        };
        let items = attachment::copy_attachments(&pending.attachments);
        let restored = self.restore_pending_contents(&pending, items);
        let ghost said = line.deep_view();
        let mut lines: Vec<TranscriptLine> = Vec::new();
        lines.push(line);
        assert(lines.deep_view() =~= seq![said]);
        if !restored {
            lines.push(notice("submit was not sent; draft left as edited"));
            assert(lines.deep_view() =~= seq![
                said,
                notice_line("submit was not sent; draft left as edited"@),
            ]);
        }
        effect::one_effect(Effect::Append(lines))
    }
}

/// A held message put back after an interruption.
pub open spec fn interrupted(a: AppView, line: LineView) -> (AppView, Seq<EffectView>) {
    match a.submit_state {
        SubmitView::Dispatching(pending) => submit_failed(a, pending.intent_id, line),
        _ => (a, nothing()),
    }
}

/// The rows of a sent message.
fn sent_rows(pending: &PendingSubmission) -> (rows: Vec<String>)
    ensures
        rows.deep_view() == message_rows(pending.deep_view()),
{
    let ghost view = pending.deep_view();
    let mut rows: Vec<String> = Vec::new();
    if !pending.draft.as_str().is_empty() {
        rows = strs::split(pending.draft.as_str(), '\n');
    } else {
        assert(rows.deep_view() =~= Seq::<Seq<char>>::empty());
    }
    let ghost text_rows = rows.deep_view();
    let items = &pending.attachments;
    let ghost all = items.deep_view();
    let mut i: usize = 0;
    proof {
        assert(text_rows + Seq::<Seq<char>>::empty() =~= text_rows);
    }
    while i < items.len()
        invariant
            i <= items.len(),
            all == items.deep_view(),
            rows.deep_view() == text_rows + Seq::new(
                i as nat,
                |k: int| "[attached "@ + label_of(all[k]) + "]"@,
            ),
        decreases items.len() - i,
    {
        let ghost before = rows.deep_view();
        assert(all[i as int] == items@[i as int].deep_view());
        let row = strs::cat3("[attached ", items[i].label().as_str(), "]");
        rows.push(row);
        proof {
            assert(rows.deep_view() =~= before.push(row@));
            assert(rows.deep_view() =~= text_rows + Seq::new(
                (i + 1) as nat,
                |k: int| "[attached "@ + label_of(all[k]) + "]"@,
            ));
        }
        i += 1;
    }
    proof {
        assert(rows.deep_view() =~= message_rows(view));
    }
    rows
}

// ---------------------------------------------------------------------------
// Laws
// ---------------------------------------------------------------------------

/// A message that could not be sent comes back whole as long as nothing was
/// edited since: text, attachments, and no message is held any more.
pub proof fn unsent_messages_come_back(a: AppView, text: Seq<char>, line: LineView)
    ensures
        ({
            let held = dispatched(a, text).0;
            let back = submit_failed(held, a.next_intent_id, line).0;
            &&& back.input == filled(text)
            &&& back.attachments == a.attachments
            &&& back.submit_state is Editing
            &&& back.history == a.history
            &&& back.cells == a.cells
        }),
{
    reveal(dispatched);
    reveal(submit_failed);
    assert(Seq::<AttachmentView>::empty() + a.attachments =~= a.attachments);
}

/// A message that was admitted is shown with its attachments and can be
/// recalled; nothing is held any more.
pub proof fn admitted_messages_are_recorded(a: AppView, text: Seq<char>, operation_id: Seq<char>)
    ensures
        ({
            let held = dispatched(a, text).0;
            let admitted = submit_accepted(held, a.next_intent_id, operation_id);
            let pending = held.submit_state->Dispatching_0;
            &&& admitted.0.submit_state == (SubmitView::Accepted {
                intent_id: a.next_intent_id,
                operation_id,
            })
            &&& text.len() > 0 ==> admitted.0.history == remembered(a.history, text)
            &&& admitted.1 == only(EffectView::Append(user_rows(message_rows(pending))))
            &&& pending.draft == text
            &&& pending.attachments == a.attachments
            &&& admitted.0.attachments.len() == 0
        }),
{
    reveal(dispatched);
    reveal(submit_accepted);
}

/// An answer that comes twice counts once.
pub proof fn answers_count_once(
    a: AppView,
    intent_id: IntentId,
    operation_id: Seq<char>,
    line: LineView,
)
    ensures
        ({
            let admitted = submit_accepted(a, intent_id, operation_id).0;
            &&& submit_accepted(admitted, intent_id, operation_id) == (admitted, nothing())
            &&& submit_failed(admitted, intent_id, line) == (admitted, nothing())
        }),
{
    reveal(submit_accepted);
    reveal(submit_failed);
}

/// A late answer for another intent changes nothing.
pub proof fn late_answers_are_ignored(
    a: AppView,
    intent_id: IntentId,
    operation_id: Seq<char>,
    line: LineView,
)
    requires
        pending_of(a, intent_id) is None,
    ensures
        submit_accepted(a, intent_id, operation_id) == (a, nothing()),
        submit_failed(a, intent_id, line) == (a, nothing()),
{
    reveal(submit_accepted);
    reveal(submit_failed);
}

/// At most one message is held: while one is, submitting leaves it and the
/// draft alone.
pub proof fn one_message_at_a_time(a: AppView, now: u64)
    requires
        a.submit_state is Dispatching,
    ensures
        submitted(a, now).0.submit_state == a.submit_state,
        submitted(a, now).0.input == a.input,
        submitted(a, now).0.attachments == a.attachments,
        forall|i: int|
            0 <= i < submitted(a, now).1.len() ==> !((#[trigger] submitted(a, now).1[i])
                is PrepareSubmit),
{
    reveal(submitted);
}

/// Nothing enters the transcript or the recall before the service admits it.
pub proof fn dispatch_commits_nothing(a: AppView, text: Seq<char>)
    ensures
        dispatched(a, text).0.history == a.history,
        dispatched(a, text).0.cells == a.cells,
        dispatched(a, text).0.submit_state is Dispatching,
{
    reveal(dispatched);
}

/// A recovered draft never overwrites a newer edit.
pub proof fn recovery_spares_newer_edits(
    a: AppView,
    text: Seq<char>,
    items: Seq<AttachmentView>,
)
    requires
        a.draft_generation != 0 || !empty_draft(a),
    ensures
        recovered(a, text, items).0.input == a.input,
        !recovered(a, text, items).1,
        a.attachments.len() > 0 ==> recovered(a, text, items).0 == a,
{
}

/// What is sent is the draft as it stands, with what is attached, under the next
/// number; the composer is empty then.
pub proof fn the_draft_is_what_is_sent(a: AppView, now: u64)
    requires
        !(a.submit_state is Dispatching),
        !empty_draft(a) || a.attachments.len() > 0,
        !begins(draft(a.input), "/"@),
    ensures
        ({
            let (next, effects) = submitted(a, now);
            &&& effects.len() > 0
            &&& effects.last() == (EffectView::PrepareSubmit {
                intent_id: a.next_intent_id,
                text: draft(a.input),
                attachments: a.attachments,
            })
            &&& forall|i: int|
                0 <= i < effects.len() - 1 ==> !((#[trigger] effects[i]) is PrepareSubmit)
            &&& next.input == blank()
            &&& next.attachments.len() == 0
            &&& next.next_intent_id != a.next_intent_id || a.next_intent_id == 1
            &&& next.submit_state is Dispatching
        }),
{
    reveal(submitted);
    reveal(dispatched);
}

/// A line that begins with a slash is run and remembered, and never sent.
pub proof fn slashes_are_run(a: AppView, now: u64)
    requires
        !(a.submit_state is Dispatching),
        !empty_draft(a) || a.attachments.len() > 0,
        begins(draft(a.input), "/"@),
    ensures
        ({
            let b = draft_taken(at_tail(a, now));
            submitted(a, now) == ran(
                AppView {
                    history: HistoryView {
                        entries: a.history.entries.push(draft(a.input)),
                        cursor: None,
                        stash: None,
                    },
                    ..b
                },
                draft(a.input),
                now,
            )
        }),
        forall|i: int|
            0 <= i < submitted(a, now).1.len() ==> !((#[trigger] submitted(a, now).1[i])
                is PrepareSubmit),
        submitted(a, now).0.input == blank(),
        submitted(a, now).0.submit_state == a.submit_state,
{
    reveal(submitted);
    let b = draft_taken(at_tail(a, now));
    super::commands::commands_never_submit(
        AppView { history: remembered(b.history, draft(a.input)), ..b },
        draft(a.input),
        now,
    );
}

/// An empty prompt with nothing attached sends nothing.
pub proof fn nothing_is_sent_of_nothing(a: AppView, now: u64)
    requires
        empty_draft(a),
        a.attachments.len() == 0,
    ensures
        submitted(a, now).1.len() == 0,
        submitted(a, now).0.input == a.input,
        submitted(a, now).0.submit_state == a.submit_state,
{
    reveal(submitted);
}

/// A message that was admitted is shown as it was written: its lines in order
/// between two blank rows, and behind them each attachment.
pub proof fn messages_are_shown_as_written(draft: Seq<char>, attachments: Seq<AttachmentView>, i:
    int)
    requires
        draft.len() > 0,
        0 <= i < attachments.len(),
    ensures
        ({
            let pending = PendingView {
                intent_id: 0,
                draft,
                attachments,
                request_id: None,
                held_generation: 0,
            };
            let rows = user_rows(message_rows(pending));
            let count = rows.len() - 2 - attachments.len();
            &&& count >= 1
            &&& join(
                rows.subrange(1, 1 + count).map_values(|line: LineView| line.text),
                seq!['\n'],
            ) == draft
            &&& rows[1 + count + i].text == "[attached "@ + label_of(attachments[i]) + "]"@
            &&& rows[0].text.len() == 0 && rows.last().text.len() == 0
            &&& forall|k: int|
                0 <= k < rows.len() ==> (#[trigger] rows[k]).kind == LineKind::User
        }),
{
    let pending = PendingView {
        intent_id: 0,
        draft,
        attachments,
        request_id: None,
        held_generation: 0,
    };
    let parts = split_on(draft, '\n');
    strs::split_on_nonempty(draft, '\n');
    strs::join_inverts_split(draft, '\n');
    let rows = user_rows(message_rows(pending));
    let count = rows.len() - 2 - attachments.len();
    assert(count == parts.len());
    assert(rows.subrange(1, 1 + count).map_values(|line: LineView| line.text) =~= parts);
}

/// An edit reaches the draft and leaves what is queued and held alone.
pub proof fn edits_leave_the_rest_alone(a: AppView, ch: char, text: Seq<char>)
    requires
        a.confirm is None,
        a.picker is None,
    ensures
        char_inserted(a, ch).input == typed(a.input, ch),
        newline_inserted(a).input == broken(a.input),
        backspaced(a).input == erased(a.input),
        forward_deleted(a).input == deleted(a.input),
        text_pasted(a, text).input == pasted(a.input, text),
        char_inserted(a, ch).attachments == a.attachments,
        backspaced(a).attachments == a.attachments,
        text_pasted(a, text).attachments == a.attachments,
        char_inserted(a, ch).submit_state == a.submit_state,
        char_inserted(a, ch).cells == a.cells,
        char_inserted(a, ch).history.entries == a.history.entries,
        char_inserted(a, ch).history.cursor is None,
        char_inserted(a, ch).selection is None,
        char_inserted(a, ch).draft_generation != a.draft_generation,
        backspaced(a).draft_generation != a.draft_generation,
        text_pasted(a, text).draft_generation != a.draft_generation,
{
}

/// At the first line going up recalls what was sent before, at the last line going
/// down what was sent after it; in between the cursor goes line by line.
pub proof fn vertical_keys_move_or_recall(a: AppView)
    ensures
        a.input.row > 0 ==> went_up(a).input == moved_to(a.input, a.input.row - 1),
        a.input.row + 1 < a.input.lines.len() ==> went_down(a).input == moved_to(
            a.input,
            a.input.row + 1,
        ),
        a.input.row == 0 && a.history.cursor is None && a.history.entries.len() > 0 ==> went_up(
            a,
        ).input == filled(a.history.entries.last()),
        a.input.row == 0 && a.history.entries.len() == 0 ==> went_up(a).input == a.input,
        a.input.row + 1 >= a.input.lines.len() && a.history.cursor is None ==> went_down(a).input
            == a.input,
{
}

} // verus!
