//! Who handles an action: approval, picker, command menu, history, composer.

use vstd::prelude::*;

use super::browse::{
    browsing, composing, cursor_first, cursor_last, cursor_paged, cursor_stepped, fold_toggled,
    page_rows,
};
use super::commands::{
    error_line, level_line, menu_accepted, menu_executed, menu_moved, releveled, synced,
};
use super::composer::{
    backspaced, char_inserted, dispatch_finished, empty_draft, ended, forward_deleted, homed,
    media_refused, newline_inserted, submit_accepted, submit_failed, submitted, went_down, went_up,
};
use super::overlays::{confirm_acted, picker_acted};
use super::pointer::{selection_dragged, selection_ended, selection_started};
use super::runtime::{compaction_cancel_finished, escaped, interrupt_pressed};
use super::updates::ingested;
use super::{scrolled_by, App, AppView, FocusMode};
use crate::app::action::Action;
use crate::app::effect;
use crate::app::effect::{nothing, only, says, Effect, EffectView};
use crate::app::input::{
    deleting_takes_what_is_behind, draft, erasing_takes_what_is_before, moved_left, moved_right,
    placed, text_before, text_behind, typing_inserts_at_the_cursor,
};

verus! {

/// A change of state that asks for nothing.
pub open spec fn quietly(a: AppView) -> (AppView, Seq<EffectView>) {
    (a, nothing())
}

/// The two-step exit disarmed by anything but its own chord.
pub open spec fn exit_disarmed(a: AppView, action: Action) -> AppView {
    if action is CtrlC {
        a
    } else {
        AppView { exit_armed: false, ..a }
    }
}

/// `Ctrl+D`: leaves when the draft is empty.
pub open spec fn leave_pressed(a: AppView) -> (AppView, Seq<EffectView>) {
    (
        a,
        if empty_draft(a) {
            only(EffectView::Quit)
        } else {
            nothing()
        },
    )
}

/// An action on the transcript by wheel or pointer.
#[verifier::opaque]
pub open spec fn pointer_acted(a: AppView, action: Action, now: u64) -> AppView {
    match action {
        Action::ScrollTranscript(delta) => scrolled_by(a, a.width, a.height, delta, now),
        Action::SelectStart { x, y } => selection_started(a, x, y, now),
        Action::SelectDrag { x, y } => selection_dragged(a, x, y, now),
        Action::SelectEnd { x, y } => selection_ended(a, x, y, now),
        _ => a,
    }
}

pub open spec fn is_pointer_action(action: Action) -> bool {
    action is ScrollTranscript || action is SelectStart || action is SelectDrag || action
        is SelectEnd
}

/// An action while the history is browsed.
#[verifier::opaque]
pub open spec fn browse_acted(was: AppView, action: Action, now: u64) -> (
    AppView,
    Seq<EffectView>,
) {
    let a = exit_disarmed(was, action);
    match action {
        Action::BrowseStep(delta) => quietly(cursor_stepped(a, delta, now)),
        Action::BrowsePage(delta) => quietly(cursor_paged(a, delta, now)),
        Action::BrowseToggleFold => quietly(fold_toggled(a, now)),
        Action::Home => quietly(cursor_first(a, now)),
        Action::End => quietly(cursor_last(a, now)),
        Action::ExitBrowse | Action::Escape => quietly(composing(a)),
        Action::Submit => submitted(a, now),
        Action::CtrlC => {
            let result = interrupt_pressed(a);
            (composing(result.0), result.1)
        },
        _ => if is_pointer_action(action) {
            quietly(pointer_acted(a, action, now))
        } else {
            quietly(a)
        },
    }
}

/// An edit or a move in the draft.
#[verifier::opaque]
pub open spec fn edit_acted(a: AppView, action: Action, now: u64) -> AppView {
    match action {
        Action::InsertChar(ch) => char_inserted(a, ch),
        Action::InsertNewline => newline_inserted(a),
        Action::Backspace => backspaced(a),
        Action::Delete => forward_deleted(a),
        Action::MoveLeft => AppView { input: moved_left(a.input), ..a },
        Action::MoveRight => AppView { input: moved_right(a.input), ..a },
        Action::Home => homed(a, now),
        Action::End => ended(a, now),
        Action::MoveUp => went_up(a),
        Action::MoveDown => went_down(a),
        _ => a,
    }
}

pub open spec fn is_edit(action: Action) -> bool {
    action is InsertChar || action is InsertNewline || action is Backspace || action is Delete
        || action is MoveLeft || action is MoveRight || action is Home || action is End || action
        is MoveUp || action is MoveDown
}

/// What became of something asked for earlier.
#[verifier::opaque]
pub open spec fn outcome_acted(a: AppView, action: Action) -> (AppView, Seq<EffectView>) {
    match action {
        Action::SubmitMediaRefused { intent_id, kept, errors } => media_refused(
            a,
            intent_id,
            kept.deep_view(),
            errors.deep_view(),
        ),
        Action::SubmitDispatchFinished { intent_id, result } => dispatch_finished(
            a,
            intent_id,
            result,
        ),
        Action::SubmitCommandRejected { intent_id, reason } => submit_failed(
            a,
            intent_id,
            error_line("error: "@ + reason@),
        ),
        Action::SubmitAccepted { intent_id, operation_id } => submit_accepted(
            a,
            intent_id,
            operation_id@,
        ),
        Action::CompactionCancelDispatchFinished { result } => compaction_cancel_finished(
            a,
            result,
        ),
        _ => quietly(a),
    }
}

/// An action in the composer.
#[verifier::opaque]
pub open spec fn compose_acted(was: AppView, action: Action, now: u64) -> (
    AppView,
    Seq<EffectView>,
) {
    let a = exit_disarmed(was, action);
    match action {
        Action::Submit => submitted(a, now),
        Action::Escape => escaped(a),
        Action::CtrlC => interrupt_pressed(a),
        Action::CtrlD => leave_pressed(a),
        Action::ToggleLevel => (releveled(a), says(level_line(releveled(a).level))),
        Action::Redraw => (a, only(EffectView::HardRedraw)),
        Action::EnterBrowse => quietly(browsing(a, now)),
        Action::PageTranscriptUp => quietly(
            scrolled_by(a, a.width, a.height, (-a.height) as isize, now),
        ),
        Action::PageTranscriptDown => quietly(
            scrolled_by(a, a.width, a.height, a.height as isize, now),
        ),
        Action::Complete => quietly(
            if a.completion is Some {
                menu_accepted(a)
            } else {
                synced(a)
            },
        ),
        Action::Paste => (a, only(EffectView::ReadClipboard)),
        _ => if is_edit(action) {
            quietly(edit_acted(a, action, now))
        } else if is_pointer_action(action) {
            quietly(pointer_acted(a, action, now))
        } else {
            outcome_acted(a, action)
        },
    }
}

/// Whether an open command menu handles the action.
pub open spec fn for_menu(action: Action) -> bool {
    action is Escape || action is MoveUp || action is MoveDown || action is Submit || action
        is Complete
}

/// An action on the open command menu.
#[verifier::opaque]
pub open spec fn menu_acted(a: AppView, action: Action, now: u64) -> (AppView, Seq<EffectView>) {
    match action {
        Action::Escape => quietly(AppView { completion: None, ..a }),
        Action::MoveUp => quietly(menu_moved(a, true)),
        Action::MoveDown => quietly(menu_moved(a, false)),
        Action::Submit => menu_executed(a, now),
        _ => quietly(menu_accepted(a)),
    }
}

/// One action: the approval prompt comes first, then a picker, the command
/// menu, the browsed history, and the composer.
#[verifier::opaque]
pub open spec fn dispatched_action(a: AppView, action: Action, now: u64) -> (
    AppView,
    Seq<EffectView>,
) {
    if action is Inert {
        quietly(a)
    } else if a.confirm is Some {
        confirm_acted(a, a.confirm->0, action)
    } else if a.picker is Some {
        picker_acted(a, a.picker->0, action)
    } else if a.completion is Some && for_menu(action) {
        menu_acted(a, action, now)
    } else if a.focus == FocusMode::Browse {
        browse_acted(a, action, now)
    } else {
        compose_acted(a, action, now)
    }
}

/// One action, what it appends already in the transcript.
pub open spec fn acted(a: AppView, action: Action, now: u64) -> (AppView, Seq<EffectView>) {
    let result = dispatched_action(a, action, now);
    (ingested(result.0, result.1), result.1)
}

/// Whether the action stays within machine limits: a typed character needs a
/// column, a line break a line, and a page a count of rows.
pub open spec fn fits(a: AppView, action: Action) -> bool {
    match action {
        Action::InsertChar(_) => a.input.col < usize::MAX,
        Action::InsertNewline => a.input.lines.len() < usize::MAX,
        Action::BrowsePage(delta) => isize::MIN <= delta * page_rows(a.height) <= isize::MAX,
        _ => true,
    }
}

impl App {
    pub fn level(&self) -> (level: crate::app::transcript::InfoLevel)
        ensures
            level == self@.level,
    {
        proof {
            reveal(App::model);
        }
        self.level
    }

    pub fn shows_reasoning(&self) -> (yes: bool)
        ensures
            yes == self@.show_reasoning,
    {
        proof {
            reveal(App::model);
        }
        self.show_reasoning
    }

    pub fn follow_bottom(&self) -> (yes: bool)
        ensures
            yes == self@.scroll.follow_bottom,
    {
        proof {
            reveal(App::model);
        }
        self.scroll.follow_bottom()
    }

    fn disarm_exit_for(&mut self, action: &Action)
        requires
            old(self).wf(),
        ensures
            final(self).wf(),
            final(self)@ == exit_disarmed(old(self)@, *action),
    {
        proof {
            reveal(App::model);
            reveal(App::wf);
        }
        match action {
            Action::CtrlC => {},
            _ => {
                self.exit_armed = false;
            },
        }
    }

    fn layout(&self) -> (size: (usize, usize))
        requires
            self.wf(),
        ensures
            size.0 == self@.width,
            size.1 == self@.height,
            size.1 <= u16::MAX,
    {
        proof {
            reveal(App::model);
            reveal(App::wf);
        }
        (self.layout_width, self.layout_history_height)
    }

    fn on_pointer_action(&mut self, action: &Action, now: u64)
        requires
            old(self).wf(),
        ensures
            final(self).wf(),
            final(self)@ == pointer_acted(old(self)@, *action, now),
    {
        proof {
            reveal(pointer_acted);
        }
        match action {
            Action::ScrollTranscript(delta) => {
                let (width, height) = self.layout();
                self.scroll_transcript(width, height, *delta, now);
            },
            Action::SelectStart { x, y } => self.select_start(*x, *y, now),
            Action::SelectDrag { x, y } => self.select_drag(*x, *y, now),
            Action::SelectEnd { x, y } => self.select_end(*x, *y, now),
            _ => {},
        }
    }

    /// An action while the history is browsed.
    fn on_browse_action(&mut self, action: &Action, now: u64) -> (effects: Vec<Effect>)
        requires
            old(self).wf(),
            fits(old(self)@, *action),
        ensures
            final(self).wf(),
            (final(self)@, effects.deep_view()) == browse_acted(old(self)@, *action, now),
    {
        proof {
            reveal(browse_acted);
        }
        self.disarm_exit_for(action);
        match action {
            Action::BrowseStep(delta) => self.browse_step(*delta, now),
            Action::BrowsePage(delta) => self.browse_page(*delta, now),
            Action::BrowseToggleFold => self.browse_toggle_fold(now),
            Action::Home => self.browse_home(now),
            Action::End => self.browse_end(now),
            Action::ExitBrowse | Action::Escape => self.exit_browse(),
            Action::Submit => return self.submit(now),
            Action::CtrlC => {
                let effects = self.ctrl_c();
                self.exit_browse();
                return effects;
            },
            Action::ScrollTranscript(_)
            | Action::SelectStart { .. }
            | Action::SelectDrag { .. }
            | Action::SelectEnd { .. } => self.on_pointer_action(action, now),
            _ => {},
        }
        effect::no_effects()
    }

    fn on_edit_action(&mut self, action: &Action, now: u64)
        requires
            old(self).wf(),
            fits(old(self)@, *action),
        ensures
            final(self).wf(),
            final(self)@ == edit_acted(old(self)@, *action, now),
    {
        proof {
            reveal(edit_acted);
        }
        match action {
            Action::InsertChar(ch) => self.insert_char(*ch),
            Action::InsertNewline => self.insert_newline(),
            Action::Backspace => self.backspace(),
            Action::Delete => self.delete(),
            Action::MoveLeft => self.move_left(),
            Action::MoveRight => self.move_right(),
            Action::Home => self.home(now),
            Action::End => self.end(now),
            Action::MoveUp => self.move_up(),
            Action::MoveDown => self.move_down(),
            _ => {},
        }
    }

    fn on_outcome_action(&mut self, action: Action) -> (effects: Vec<Effect>)
        requires
            old(self).wf(),
        ensures
            final(self).wf(),
            (final(self)@, effects.deep_view()) == outcome_acted(old(self)@, action),
    {
        proof {
            reveal(outcome_acted);
        }
        match action {
            Action::SubmitMediaRefused { intent_id, kept, errors } => self.on_submit_media_refused(
                intent_id,
                kept,
                errors,
            ),
            Action::SubmitDispatchFinished { intent_id, result } => {
                self.on_submit_dispatch_finished(intent_id, result)
            },
            Action::SubmitCommandRejected { intent_id, reason } => self.on_submit_command_rejected(
                intent_id,
                reason.as_str(),
            ),
            Action::SubmitAccepted { intent_id, operation_id } => self.on_submit_accepted(
                intent_id,
                operation_id,
            ),
            Action::CompactionCancelDispatchFinished { result } => {
                self.on_compaction_cancel_dispatch_finished(result)
            },
            _ => effect::no_effects(),
        }
    }

    fn leave(&self) -> (effects: Vec<Effect>)
        requires
            self.wf(),
        ensures
            effects.deep_view() == leave_pressed(self@).1,
    {
        proof {
            reveal(App::model);
            reveal(App::wf);
        }
        if self.input.is_empty() {
            effect::one_effect(Effect::Quit)
        } else {
            effect::no_effects()
        }
    }

    /// An action in the composer.
    fn on_compose_action(&mut self, action: Action, now: u64) -> (effects: Vec<Effect>)
        requires
            old(self).wf(),
            fits(old(self)@, action),
        ensures
            final(self).wf(),
            (final(self)@, effects.deep_view()) == compose_acted(old(self)@, action, now),
    {
        proof {
            reveal(compose_acted);
        }
        self.disarm_exit_for(&action);
        match action {
            Action::Submit => self.submit(now),
            Action::Escape => self.escape(),
            Action::CtrlC => self.ctrl_c(),
            Action::CtrlD => self.leave(),
            Action::ToggleLevel => {
                let line = self.toggle_level();
                effect::say(line)
            },
            Action::Redraw => effect::one_effect(Effect::HardRedraw),
            Action::EnterBrowse => {
                self.enter_browse(now);
                effect::no_effects()
            },
            Action::PageTranscriptUp => {
                let (width, height) = self.layout();
                self.page_transcript_up(width, height, now);
                effect::no_effects()
            },
            Action::PageTranscriptDown => {
                let (width, height) = self.layout();
                self.page_transcript_down(width, height, now);
                effect::no_effects()
            },
            Action::Complete => {
                self.complete();
                effect::no_effects()
            },
            Action::Paste => effect::one_effect(Effect::ReadClipboard),
            Action::InsertChar(_)
            | Action::InsertNewline
            | Action::Backspace
            | Action::Delete
            | Action::MoveLeft
            | Action::MoveRight
            | Action::Home
            | Action::End
            | Action::MoveUp
            | Action::MoveDown => {
                self.on_edit_action(&action, now);
                effect::no_effects()
            },
            Action::ScrollTranscript(_)
            | Action::SelectStart { .. }
            | Action::SelectDrag { .. }
            | Action::SelectEnd { .. } => {
                self.on_pointer_action(&action, now);
                effect::no_effects()
            },
            _ => self.on_outcome_action(action),
        }
    }

    fn close_menu(&mut self)
        requires
            old(self).wf(),
        ensures
            final(self).wf(),
            final(self)@ == (AppView { completion: None, ..old(self)@ }),
    {
        proof {
            reveal(App::model);
            reveal(App::wf);
        }
        self.completion = None;
    }

    fn on_menu_action(&mut self, action: &Action, now: u64) -> (effects: Vec<Effect>)
        requires
            old(self).wf(),
        ensures
            final(self).wf(),
            (final(self)@, effects.deep_view()) == menu_acted(old(self)@, *action, now),
    {
        proof {
            reveal(menu_acted);
        }
        match action {
            Action::Escape => self.close_menu(),
            Action::MoveUp => self.move_completion(true),
            Action::MoveDown => self.move_completion(false),
            Action::Submit => return self.execute_completion(now),
            _ => self.accept_completion(),
        }
        effect::no_effects()
    }

    fn menu_is_open(&self) -> (yes: bool)
        ensures
            yes == (self@.completion is Some),
    {
        proof {
            reveal(App::model);
            reveal(App::wf);
        }
        self.completion.is_some()
    }

    fn picker_is_open(&self) -> (yes: bool)
        ensures
            yes == (self@.picker is Some),
    {
        proof {
            reveal(App::model);
            reveal(App::wf);
        }
        self.picker.is_some()
    }

    fn dispatch_action(&mut self, action: Action, now: u64) -> (effects: Vec<Effect>)
        requires
            old(self).wf(),
            fits(old(self)@, action),
        ensures
            final(self).wf(),
            (final(self)@, effects.deep_view()) == dispatched_action(old(self)@, action, now),
    {
        proof {
            reveal(dispatched_action);
        }
        if let Action::Inert = action {
            return effect::no_effects();
        }
        if self.has_confirmation() {
            return self.on_confirm_action(&action);
        }
        if self.picker_is_open() {
            return self.on_picker_action(&action);
        }
        if self.menu_is_open() {
            let handled = match &action {
                Action::Escape
                | Action::MoveUp
                | Action::MoveDown
                | Action::Submit
                | Action::Complete => true,
                _ => false,
            };
            if handled {
                return self.on_menu_action(&action, now);
            }
        }
        if self.in_browse_mode() {
            return self.on_browse_action(&action, now);
        }
        self.on_compose_action(action, now)
    }

    /// Handles one interpreted key action.
    pub fn on_action(&mut self, action: Action, now: u64) -> (effects: Vec<Effect>)
        requires
            old(self).wf(),
            fits(old(self)@, action),
        ensures
            final(self).wf(),
            (final(self)@, effects.deep_view()) == acted(old(self)@, action, now),
    {
        let effects = self.dispatch_action(action, now);
        self.ingest_appends(&effects);
        effects
    }
}

// ---------------------------------------------------------------------------
// Laws
// ---------------------------------------------------------------------------

/// A key release changes nothing, whatever is open.
pub proof fn releases_are_inert(a: AppView, now: u64)
    ensures
        acted(a, Action::Inert, now) == quietly(a),
{
    reveal(dispatched_action);
}

/// While an approval waits, no action reaches anything below it: the draft, the
/// picker, the menu and the view stay as they are.
pub proof fn approvals_come_first(a: AppView, action: Action, now: u64)
    requires
        a.confirm is Some,
    ensures
        dispatched_action(a, action, now).0 == a || dispatched_action(a, action, now).0 == (
        AppView { confirm: None, ..a }),
{
    reveal(dispatched_action);
    reveal(confirm_acted);
}

/// Any composer action but the chord itself disarms the two-step exit.
pub proof fn other_actions_disarm_the_exit(a: AppView, action: Action, now: u64)
    requires
        is_edit(action) || is_pointer_action(action) || action is Escape || action is CtrlD
            || action is ToggleLevel || action is EnterBrowse,
    ensures
        !compose_acted(a, action, now).0.exit_armed,
{
    reveal(compose_acted);
    reveal(edit_acted);
    reveal(pointer_acted);
    let b = exit_disarmed(a, action);
    view_keeps_exit(b, action, now);
}

/// Wheel and pointer leave the two-step exit as it is.
proof fn view_keeps_exit(a: AppView, action: Action, now: u64)
    ensures
        pointer_acted(a, action, now).exit_armed == a.exit_armed,
{
    reveal(pointer_acted);
    reveal(super::pointer::view_kept);
}

/// Whether the composer has the keys: no question, no picker, and no browsing.
pub open spec fn composer_has_the_keys(a: AppView) -> bool {
    a.confirm is None && a.picker is None && a.focus != FocusMode::Browse
}

/// A typed character lands in the draft where the cursor is, whether or not the
/// command menu is open, and asks for nothing.
pub proof fn keys_type_into_the_draft(a: AppView, ch: char, now: u64)
    requires
        composer_has_the_keys(a),
        placed(a.input),
        !crate::strs::is_control(ch),
    ensures
        ({
            let (next, effects) = dispatched_action(a, Action::InsertChar(ch), now);
            &&& draft(next.input) == text_before(a.input).push(ch) + text_behind(a.input)
            &&& effects.len() == 0
        }),
        ({
            let (next, effects) = dispatched_action(a, Action::InsertNewline, now);
            &&& draft(next.input) == text_before(a.input).push('\n') + text_behind(a.input)
            &&& effects.len() == 0
        }),
{
    reveal(dispatched_action);
    reveal(compose_acted);
    reveal(edit_acted);
    typing_inserts_at_the_cursor(a.input, ch);
    crate::app::input::breaks_go_to_the_cursor(a.input);
}

/// At the beginning of a line erasing backward joins it with the line above, and
/// at the end of one deleting forward joins it with the line below.
pub proof fn keys_join_lines(a: AppView, now: u64)
    requires
        composer_has_the_keys(a),
        placed(a.input),
    ensures
        a.input.col == 0 && a.input.row > 0 ==> draft(
            dispatched_action(a, Action::Backspace, now).0.input,
        ) == text_before(a.input).drop_last() + text_behind(a.input),
        a.input.col == a.input.lines[a.input.row].len() && a.input.row + 1 < a.input.lines.len()
            ==> draft(dispatched_action(a, Action::Delete, now).0.input) == text_before(a.input)
            + text_behind(a.input).skip(1),
{
    reveal(dispatched_action);
    reveal(compose_acted);
    reveal(edit_acted);
    if a.input.col == 0 {
        erasing_takes_what_is_before(a.input);
    }
    if a.input.col == a.input.lines[a.input.row].len() {
        deleting_takes_what_is_behind(a.input);
    }
}

/// `Ctrl+D` leaves on an empty prompt only, and a redraw, a paste and the level
/// ask for their own thing.
pub proof fn chords_ask_for_their_thing(a: AppView, now: u64)
    requires
        composer_has_the_keys(a),
    ensures
        empty_draft(a) ==> dispatched_action(a, Action::CtrlD, now).1 == seq![EffectView::Quit],
        !empty_draft(a) ==> dispatched_action(a, Action::CtrlD, now).1.len() == 0
            && dispatched_action(a, Action::CtrlD, now).0.input == a.input,
        dispatched_action(a, Action::Redraw, now).1 == seq![EffectView::HardRedraw],
        dispatched_action(a, Action::Paste, now).1 == seq![EffectView::ReadClipboard],
        dispatched_action(a, Action::ToggleLevel, now).0.level != a.level,
        dispatched_action(a, Action::ToggleLevel, now).0.input == a.input,
{
    reveal(dispatched_action);
    reveal(compose_acted);
}

/// While the command menu is open, `Esc` closes it and keeps the draft, and
/// nothing is cancelled.
pub proof fn escape_closes_the_menu_first(a: AppView, now: u64)
    requires
        a.confirm is None,
        a.picker is None,
        a.completion is Some,
    ensures
        dispatched_action(a, Action::Escape, now) == (
            AppView { completion: None, ..a },
            Seq::<EffectView>::empty(),
        ),
{
    reveal(dispatched_action);
    reveal(menu_acted);
}

} // verus!
