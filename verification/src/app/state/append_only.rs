//! What no action does: rewrite the transcript. Lines are only ever appended.

use vstd::prelude::*;

use super::browse::{
    browsing, composing, cursor_first, cursor_last, cursor_paged, cursor_stepped, fold_toggled,
};
use super::commands::{
    bumped, highlighted, ran, ran_compact, ran_image, ran_new, ran_quit, remembered,
};
use super::composer::{
    at_tail, dispatch_finished, dispatched, draft_taken, media_refused, submit_accepted,
    submit_failed, submitted,
};
use super::dispatch::{
    acted, browse_acted, compose_acted, dispatched_action, edit_acted, exit_disarmed, menu_acted,
    outcome_acted, pointer_acted,
};
use super::overlays::{
    confirm_acted, model_submitted, picker_acted, preview_refreshed, session_submitted,
};
use super::pointer::view_kept;
use super::runtime::interrupt_pressed;
use super::updates::appends_ingested;
use super::{AppView, StoreView};
use crate::app::action::Action;
use crate::app::effect::EffectView;
use crate::app::input::{blank, draft};
use crate::app::transcript::LineView;

verus! {

/// The lines of every append, in order.
pub open spec fn appended_lines(effects: Seq<EffectView>) -> Seq<LineView>
    decreases effects.len(),
{
    if effects.len() == 0 {
        Seq::empty()
    } else {
        let before = appended_lines(effects.drop_last());
        match effects.last() {
            EffectView::Append(lines) => before + lines,
            _ => before,
        }
    }
}

proof fn ingesting_appends(cells: StoreView, effects: Seq<EffectView>)
    ensures
        appends_ingested(cells, effects).lines == cells.lines + appended_lines(effects),
        appends_ingested(cells, effects).think == cells.think,
    decreases effects.len(),
{
    if effects.len() == 0 {
        assert(cells.lines + Seq::<LineView>::empty() =~= cells.lines);
    } else {
        ingesting_appends(cells, effects.drop_last());
        if let EffectView::Append(lines) = effects.last() {
            let before = appended_lines(effects.drop_last());
            assert((cells.lines + before) + lines =~= cells.lines + (before + lines));
        }
    }
}

proof fn commands_spare_cells(a: AppView, text: Seq<char>, now: u64)
    ensures
        ran(a, text, now).0.cells == a.cells,
{
    reveal(ran);
    reveal(ran_new);
    reveal(ran_compact);
    reveal(ran_image);
    reveal(ran_quit);
}

proof fn submitting_spares_cells(a: AppView, now: u64)
    ensures
        submitted(a, now).0.cells == a.cells,
{
    reveal(submitted);
    reveal(dispatched);
    let b = at_tail(a, now);
    let c = draft_taken(b);
    let text = draft(b.input);
    commands_spare_cells(
        AppView { history: remembered(c.history, text), ..c },
        text,
        now,
    );
}

proof fn menu_spares_cells(a: AppView, action: Action, now: u64)
    requires
        a.completion is Some,
    ensures
        menu_acted(a, action, now).0.cells == a.cells,
{
    reveal(menu_acted);
    let text = "/"@ + highlighted(a.completion->0);
    commands_spare_cells(
        AppView {
            input: blank(),
            completion: None,
            history: remembered(a.history, text),
            ..bumped(a)
        },
        text,
        now,
    );
}

proof fn picker_spares_cells(a: AppView, action: Action)
    requires
        a.picker is Some,
    ensures
        picker_acted(a, a.picker->0, action).0.cells == a.cells,
{
    reveal(picker_acted);
    reveal(preview_refreshed);
    assert(model_submitted(a, a.picker->0).0.cells == a.cells) by {
        reveal(model_submitted);
    }
    assert(session_submitted(a, a.picker->0).0.cells == a.cells) by {
        reveal(session_submitted);
    }
}

proof fn pointing_spares_cells(a: AppView, action: Action, now: u64)
    ensures
        pointer_acted(a, action, now).cells == a.cells,
{
    reveal(pointer_acted);
    reveal(view_kept);
}

#[verifier::rlimit(30)]
proof fn editing_spares_cells(a: AppView, action: Action, now: u64)
    ensures
        edit_acted(a, action, now).cells == a.cells,
{
    reveal(edit_acted);
}

proof fn browsing_spares_cells(a: AppView, delta: isize, now: u64)
    ensures
        cursor_stepped(a, delta, now).cells == a.cells,
        cursor_paged(a, delta, now).cells == a.cells,
        fold_toggled(a, now).cells == a.cells,
        cursor_first(a, now).cells == a.cells,
        cursor_last(a, now).cells == a.cells,
        composing(a).cells == a.cells,
        browsing(a, now).cells == a.cells,
{
}

proof fn outcomes_spare_cells(a: AppView, action: Action)
    ensures
        outcome_acted(a, action).0.cells == a.cells,
        interrupt_pressed(a).0.cells == a.cells,
{
    reveal(outcome_acted);
    reveal(media_refused);
    reveal(dispatch_finished);
    reveal(submit_failed);
    reveal(submit_accepted);
    reveal(interrupt_pressed);
}

proof fn dispatch_spares_cells(a: AppView, action: Action, now: u64)
    ensures
        dispatched_action(a, action, now).0.cells == a.cells,
{
    reveal(dispatched_action);
    if a.confirm is Some {
        reveal(confirm_acted);
    } else if a.picker is Some {
        picker_spares_cells(a, action);
    } else {
        let b = exit_disarmed(a, action);
        let delta = match action {
            Action::BrowseStep(delta) | Action::BrowsePage(delta) => delta,
            _ => 0,
        };
        pointing_spares_cells(b, action, now);
        editing_spares_cells(b, action, now);
        browsing_spares_cells(b, delta, now);
        submitting_spares_cells(b, now);
        outcomes_spare_cells(b, action);
        assert(browse_acted(a, action, now).0.cells == a.cells) by {
            reveal(browse_acted);
        }
        assert(compose_acted(a, action, now).0.cells == a.cells) by {
            reveal(compose_acted);
        }
        if a.completion is Some {
            menu_spares_cells(a, action, now);
        }
    }
}

/// An action appends to the transcript exactly the lines that its effects name,
/// and changes no line that was there.
pub proof fn actions_only_append(a: AppView, action: Action, now: u64)
    ensures
        acted(a, action, now).0.cells.lines == a.cells.lines + appended_lines(
            acted(a, action, now).1,
        ),
        acted(a, action, now).0.cells.think == a.cells.think,
{
    dispatch_spares_cells(a, action, now);
    ingesting_appends(a.cells, dispatched_action(a, action, now).1);
}

} // verus!
