//! Overlay keys: approval answers, picker navigation and filtering.

use vstd::prelude::*;

use super::commands::{active, error, error_line, meta, meta_line};
use super::{App, AppView, FocusMode, SessionLoadIntent};
use crate::app::action::Action;
use crate::app::command;
use crate::app::command::effort_for;
use crate::app::effect;
use crate::app::effect::{nothing, only, says, Effect, EffectView, HostRequest, RequestView};
use crate::app::frontend::{ConfirmationDecision, FrontendReasoningEffort};
use crate::app::overlay::{
    focus, picker_frame, preview_of, prompt_frame, refiltered, rest, selected_id, stepped,
    tier_is_current, tiers_of, toggled, visible_of, with_preview, ConfirmPrompt, OverlayFrame,
    PickView, Picker, PickerEntry, PickerView, Preview, PreviewView, PromptView,
};
use crate::strs;
use crate::strs::lower_text;

verus! {

// ---------------------------------------------------------------------------
// Approvals
// ---------------------------------------------------------------------------

/// The prompt in step with the front request: one that is still in front keeps
/// its prompt, one that vanished loses it.
pub open spec fn front_shown(a: AppView, front: Option<PromptView>) -> AppView {
    AppView {
        confirm: match front {
            Some(prompt) => if a.confirm is Some && a.confirm->0.id == prompt.id {
                a.confirm
            } else {
                Some(prompt)
            },
            None => None,
        },
        ..a
    }
}

pub open spec fn prompt_id(a: AppView) -> Option<u64> {
    match a.confirm {
        Some(prompt) => Some(prompt.id),
        None => None,
    }
}

/// The answer that an action gives, if it gives one.
pub open spec fn answer_of(action: Action) -> Option<ConfirmationDecision> {
    match action {
        Action::InsertChar(ch) => if ch == 'y' || ch == 'Y' {
            Some(ConfirmationDecision::Allow)
        } else if ch == 'n' || ch == 'N' {
            Some(ConfirmationDecision::Deny)
        } else {
            None
        },
        Action::Escape | Action::CtrlC => Some(ConfirmationDecision::Deny),
        _ => None,
    }
}

/// An action while the approval prompt is open.
#[verifier::opaque]
pub open spec fn confirm_acted(a: AppView, prompt: PromptView, action: Action) -> (
    AppView,
    Seq<EffectView>,
) {
    match answer_of(action) {
        None => (a, nothing()),
        Some(decision) => (
            AppView { confirm: None, ..a },
            seq![
                EffectView::Append(
                    seq![
                        meta_line(
                            (if decision == ConfirmationDecision::Allow {
                                "allowed: "@
                            } else {
                                "denied: "@
                            }) + prompt.title,
                        ),
                    ],
                ),
                EffectView::Host(RequestView::Respond(prompt.id, decision)),
            ],
        ),
    }
}

// ---------------------------------------------------------------------------
// Pickers
// ---------------------------------------------------------------------------

/// A picker over entries, as it opens.
pub open spec fn fresh_picker(
    title: Seq<char>,
    grouped: bool,
    entries: Seq<PickView>,
    effort: Option<Seq<char>>,
) -> PickerView {
    PickerView {
        title,
        grouped,
        entries,
        filter: Seq::empty(),
        selected: 0,
        restore: None,
        previews: Seq::empty(),
        tier_mode: false,
        tier_selected: 0,
        current_effort: effort,
    }
}

pub open spec fn with_picker(a: AppView, picker: PickerView) -> AppView {
    AppView { picker: Some(picker), ..a }
}

pub open spec fn lowered(label: Option<Seq<char>>) -> Option<Seq<char>> {
    match label {
        Some(label) => Some(lower_text(label)),
        None => None,
    }
}

/// The filter with one more character.
pub open spec fn filter_typed(p: PickerView, ch: char) -> PickerView {
    refiltered(p, p.filter.push(ch))
}

/// The filter with its last character off.
pub open spec fn filter_erased(p: PickerView) -> PickerView {
    if p.filter.len() == 0 {
        p
    } else {
        refiltered(p, p.filter.drop_last())
    }
}

/// The highlight one step on, in the list or among the tiers.
pub open spec fn picker_stepped(p: PickerView, up: bool) -> PickerView {
    if p.tier_mode {
        PickerView { tier_selected: stepped(p.tier_selected, tiers_of(p).len(), up), ..p }
    } else if up {
        PickerView {
            selected: if p.selected > 0 {
                (p.selected - 1) as usize
            } else {
                p.selected
            },
            ..p
        }
    } else {
        PickerView {
            selected: if p.selected + 1 < visible_of(p).len() {
                (p.selected + 1) as usize
            } else {
                p.selected
            },
            ..p
        }
    }
}

/// The highlight at an end, in the list or among the tiers.
pub open spec fn picker_jumped(p: PickerView, to_top: bool) -> PickerView {
    if p.tier_mode {
        PickerView {
            tier_selected: if tiers_of(p).len() == 0 {
                p.tier_selected
            } else if to_top {
                0
            } else {
                (tiers_of(p).len() - 1) as usize
            },
            ..p
        }
    } else {
        PickerView {
            selected: if to_top {
                0
            } else {
                rest(visible_of(p).len(), 1) as usize
            },
            ..p
        }
    }
}

/// Whether a step moved the highlight of the list.
pub open spec fn list_moved(p: PickerView, up: bool) -> bool {
    if up {
        p.selected > 0
    } else {
        p.selected + 1 < visible_of(p).len()
    }
}

/// The session whose preview is wanted and not yet asked for.
pub open spec fn unclaimed(p: PickerView) -> Option<Seq<char>> {
    let wanted = selected_id(p);
    if wanted.len() > 0 && preview_of(p.previews, wanted) is None {
        Some(wanted)
    } else {
        None
    }
}

/// The picker with that preview asked for.
pub open spec fn claimed(p: PickerView) -> PickerView {
    match unclaimed(p) {
        Some(id) => PickerView {
            previews: with_preview(p.previews, id, PreviewView::Loading),
            ..p
        },
        None => p,
    }
}

/// The preview of the highlighted session asked for, once per session.
#[verifier::opaque]
pub open spec fn preview_refreshed(a: AppView) -> (AppView, Seq<EffectView>) {
    match a.picker {
        Some(p) => if p.grouped {
            (a, nothing())
        } else {
            (
                with_picker(a, claimed(p)),
                match unclaimed(p) {
                    Some(id) => only(EffectView::Host(RequestView::LoadPreview(id))),
                    None => nothing(),
                },
            )
        },
        None => (a, nothing()),
    }
}

/// A model picked: the picker closes and the switch is asked for.
pub open spec fn model_switched(
    a: AppView,
    name: Seq<char>,
    said: Seq<char>,
    effort: Option<FrontendReasoningEffort>,
) -> (AppView, Seq<EffectView>) {
    (
        AppView { picker: None, pending_model_switch: true, ..a },
        seq![
            EffectView::Append(seq![meta_line(said)]),
            EffectView::Host(RequestView::RebuildModel { name, effort }),
        ],
    )
}

/// Enter in the model picker: a model without tiers is installed, one with
/// tiers opens them; a tier is set on the current model and installed with any
/// other.
#[verifier::opaque]
pub open spec fn model_submitted(a: AppView, p: PickerView) -> (AppView, Seq<EffectView>) {
    let id = selected_id(p);
    if !p.tier_mode {
        if tiers_of(p).len() > 0 {
            (with_picker(a, toggled(p)), nothing())
        } else {
            model_switched(a, id, "switching model to "@ + id + "..."@, None)
        }
    } else if p.tier_selected >= tiers_of(p).len() {
        (a, nothing())
    } else {
        let tier = tiers_of(p)[p.tier_selected as int];
        let closed = AppView { picker: None, ..a };
        match effort_for(tier) {
            None => (closed, says(error_line("unknown reasoning tier: "@ + tier))),
            Some(effort) => if focus(p) is Some && focus(p).unwrap().marked {
                if tier_is_current(p, tier) {
                    (closed, says(meta_line("reasoning already "@ + tier)))
                } else {
                    (closed, only(EffectView::Host(RequestView::SetReasoning(effort))))
                }
            } else {
                model_switched(
                    a,
                    id,
                    "switching model to "@ + id + " (reasoning "@ + tier + ")..."@,
                    Some(effort),
                )
            },
        }
    }
}

/// Enter in the session picker: refused while the agent is active.
#[verifier::opaque]
pub open spec fn session_submitted(a: AppView, p: PickerView) -> (AppView, Seq<EffectView>) {
    if active(a) {
        (
            a,
            says(
                error_line(
                    "error: the agent is still active; cancel it with Esc before switching sessions"@,
                ),
            ),
        )
    } else {
        (
            AppView { picker: None, session_load_intent: Some(SessionLoadIntent::Switch), ..a },
            only(EffectView::Host(RequestView::SwitchSession(selected_id(p)))),
        )
    }
}

/// An action while a picker is open.
#[verifier::opaque]
pub open spec fn picker_acted(a: AppView, p: PickerView, action: Action) -> (
    AppView,
    Seq<EffectView>,
) {
    match action {
        Action::InsertChar(ch) => if p.tier_mode {
            (a, nothing())
        } else {
            preview_refreshed(with_picker(a, filter_typed(p, ch)))
        },
        Action::Backspace => if p.tier_mode {
            (a, nothing())
        } else {
            (with_picker(a, filter_erased(p)), nothing())
        },
        Action::MoveUp | Action::MoveDown => {
            let up = action is MoveUp;
            let b = with_picker(a, picker_stepped(p, up));
            if p.grouped || p.tier_mode || !list_moved(p, up) {
                (b, nothing())
            } else {
                preview_refreshed(b)
            }
        },
        Action::Home | Action::End => (
            with_picker(a, picker_jumped(p, action is Home)),
            nothing(),
        ),
        Action::Complete => if p.grouped {
            (with_picker(a, toggled(p)), nothing())
        } else {
            (a, nothing())
        },
        Action::Submit => if p.grouped {
            model_submitted(a, p)
        } else {
            session_submitted(a, p)
        },
        Action::Escape | Action::CtrlC => if p.grouped && p.tier_mode && action is Escape {
            (with_picker(a, toggled(p)), nothing())
        } else {
            (AppView { picker: None, ..a }, nothing())
        },
        _ => (a, nothing()),
    }
}

impl App {
    /// Keeps the approval overlay in step with the front request; returns
    /// whether the shown request changed.
    pub fn sync_confirmation(&mut self, front: Option<ConfirmPrompt>) -> (changed: bool)
        requires
            old(self).wf(),
        ensures
            final(self).wf(),
            final(self)@ == front_shown(old(self)@, front.deep_view()),
            changed == (prompt_id(old(self)@) != prompt_id(final(self)@)),
    {
        proof {
            reveal(App::model);
            reveal(App::wf);
        }
        let previous = match &self.confirm {
            Some(prompt) => Some(prompt.id),
            None => None,
        };
        match front {
            Some(prompt) => {
                let id = prompt.id;
                let same = match previous {
                    Some(shown) => shown == id,
                    None => false,
                };
                if !same {
                    self.confirm = Some(prompt);
                }
                !same
            },
            None => {
                self.confirm = None;
                previous.is_some()
            },
        }
    }

    pub fn open_picker(&mut self, entries: Vec<PickerEntry>)
        requires
            old(self).wf(),
        ensures
            final(self).wf(),
            final(self)@ == with_picker(
                old(self)@,
                fresh_picker("Sessions"@, false, entries.deep_view(), None),
            ),
    {
        proof {
            reveal(App::model);
            reveal(App::wf);
        }
        self.picker = Some(Picker::new("Sessions", false, entries));
    }

    pub fn open_model_picker(&mut self, entries: Vec<PickerEntry>)
        requires
            old(self).wf(),
        ensures
            final(self).wf(),
            final(self)@ == with_picker(
                old(self)@,
                fresh_picker(
                    "Models"@,
                    true,
                    entries.deep_view(),
                    lowered(old(self)@.status.effort),
                ),
            ),
    {
        proof {
            reveal(App::model);
            reveal(App::wf);
        }
        let mut picker = Picker::new("Models", true, entries);
        picker.set_current_effort(&self.status.effort);
        self.picker = Some(picker);
    }

    /// Whether the open picker lists models.
    pub fn is_models_picker(&self) -> (yes: bool)
        ensures
            yes == (self@.picker is Some && self@.picker->0.grouped),
    {
        proof {
            reveal(App::model);
            reveal(App::wf);
        }
        match &self.picker {
            Some(picker) => picker.is_models(),
            None => false,
        }
    }

    pub fn claim_preview(&mut self) -> (id: Option<String>)
        requires
            old(self).wf(),
        ensures
            final(self).wf(),
            id.deep_view() == (match old(self)@.picker {
                Some(p) => unclaimed(p),
                None => None,
            }),
            final(self)@ == (match old(self)@.picker {
                Some(p) => with_picker(old(self)@, claimed(p)),
                None => old(self)@,
            }),
    {
        proof {
            reveal(App::model);
            reveal(App::wf);
        }
        let mut open: Option<Picker> = None;
        std::mem::swap(&mut open, &mut self.picker);
        match open {
            Some(mut picker) => {
                let id = picker.claim_preview();
                self.picker = Some(picker);
                id
            },
            None => None,
        }
    }

    pub fn set_preview(&mut self, session_id: &str, preview: Preview)
        requires
            old(self).wf(),
        ensures
            final(self).wf(),
            final(self)@ == (match old(self)@.picker {
                Some(p) => with_picker(
                    old(self)@,
                    PickerView {
                        previews: with_preview(p.previews, session_id@, preview.deep_view()),
                        ..p
                    },
                ),
                None => old(self)@,
            }),
    {
        proof {
            reveal(App::model);
            reveal(App::wf);
        }
        let mut open: Option<Picker> = None;
        std::mem::swap(&mut open, &mut self.picker);
        if let Some(mut picker) = open {
            picker.set_preview(session_id, preview);
            self.picker = Some(picker);
        }
    }

    /// The overlay at its own width, an approval before a picker.
    pub fn overlay_frame(&self, height: usize) -> (frame: Option<OverlayFrame>)
        ensures
            match frame {
                Some(frame) => match self@.confirm {
                    Some(prompt) => frame.deep_view() == prompt_frame(prompt, height as nat, 80),
                    None => self@.picker is Some && frame.deep_view() == picker_frame(
                        self@.picker->0,
                        height as nat,
                        88,
                    ),
                },
                None => self@.confirm is None && self@.picker is None,
            },
    {
        proof {
            reveal(App::model);
        }
        if let Some(confirm) = &self.confirm {
            return Some(confirm.frame(height));
        }
        match &self.picker {
            Some(picker) => Some(picker.frame(height)),
            None => None,
        }
    }

    /// The open picker.
    pub fn picker(&self) -> (picker: Option<&Picker>)
        ensures
            match picker {
                Some(picker) => self@.picker == Some(picker@),
                None => self@.picker is None,
            },
    {
        proof {
            reveal(App::model);
        }
        self.picker.as_ref()
    }

    /// The open approval prompt.
    pub fn confirm_prompt(&self) -> (prompt: Option<&ConfirmPrompt>)
        ensures
            match prompt {
                Some(prompt) => self@.confirm == Some(prompt.deep_view()),
                None => self@.confirm is None,
            },
    {
        proof {
            reveal(App::model);
        }
        self.confirm.as_ref()
    }

    /// The overlay to paint, an approval before a picker. The height and width
    /// are caps for an approval and the exact size of a picker.
    pub fn overlay_frame_for(&self, height: usize, width: usize) -> (frame: Option<OverlayFrame>)
        requires
            self@.confirm is Some ==> width >= 5,
        ensures
            match frame {
                Some(frame) => match self@.confirm {
                    Some(prompt) => frame.deep_view() == prompt_frame(
                        prompt,
                        height as nat,
                        width as nat,
                    ),
                    None => self@.picker is Some && frame.deep_view() == picker_frame(
                        self@.picker->0,
                        height as nat,
                        width as nat,
                    ),
                },
                None => self@.confirm is None && self@.picker is None,
            },
    {
        proof {
            reveal(App::model);
            reveal(App::wf);
        }
        if let Some(confirm) = &self.confirm {
            return Some(confirm.frame_for(height, width));
        }
        match &self.picker {
            Some(picker) => Some(picker.frame_for(height, width)),
            None => None,
        }
    }

    pub fn has_confirmation(&self) -> (yes: bool)
        ensures
            yes == (self@.confirm is Some),
    {
        proof {
            reveal(App::model);
            reveal(App::wf);
        }
        self.confirm.is_some()
    }

    pub fn input_focused(&self) -> (yes: bool)
        ensures
            yes == (self@.confirm is None && self@.picker is None && self@.focus
                == FocusMode::Input),
    {
        proof {
            reveal(App::model);
            reveal(App::wf);
        }
        self.confirm.is_none() && self.picker.is_none() && self.focus_mode == FocusMode::Input
    }

    fn close_confirm(&mut self)
        requires
            old(self).wf(),
        ensures
            final(self).wf(),
            final(self)@ == (AppView { confirm: None, ..old(self)@ }),
    {
        proof {
            reveal(App::model);
            reveal(App::wf);
        }
        self.confirm = None;
    }

    fn close_picker(&mut self)
        requires
            old(self).wf(),
        ensures
            final(self).wf(),
            final(self)@ == (AppView { picker: None, ..old(self)@ }),
    {
        proof {
            reveal(App::model);
            reveal(App::wf);
        }
        self.picker = None;
    }

    /// Takes the picker out, to be changed and put back.
    fn take_picker(&mut self) -> (picker: Picker)
        requires
            old(self).wf(),
            old(self)@.picker is Some,
        ensures
            final(self).wf(),
            picker@ == old(self)@.picker->0,
            final(self)@ == (AppView { picker: None, ..old(self)@ }),
    {
        proof {
            reveal(App::model);
            reveal(App::wf);
        }
        let mut open: Option<Picker> = None;
        std::mem::swap(&mut open, &mut self.picker);
        open.unwrap()
    }

    fn put_picker(&mut self, picker: Picker)
        requires
            old(self).wf(),
        ensures
            final(self).wf(),
            final(self)@ == with_picker(old(self)@, picker@),
    {
        proof {
            reveal(App::model);
            reveal(App::wf);
        }
        self.picker = Some(picker);
    }

    fn prompt_facts(&self) -> (facts: (u64, String))
        requires
            self@.confirm is Some,
        ensures
            facts.0 == self@.confirm->0.id,
            facts.1@ == self@.confirm->0.title,
    {
        proof {
            reveal(App::model);
            reveal(App::wf);
        }
        match &self.confirm {
            Some(prompt) => (prompt.id, prompt.title().to_owned()),
            None => (0, String::new()),
        }
    }

    /// An action while the approval prompt is open.
    pub fn on_confirm_action(&mut self, action: &Action) -> (effects: Vec<Effect>)
        requires
            old(self).wf(),
            old(self)@.confirm is Some,
        ensures
            final(self).wf(),
            (final(self)@, effects.deep_view()) == confirm_acted(
                old(self)@,
                old(self)@.confirm->0,
                *action,
            ),
    {
        proof {
            reveal(confirm_acted);
        }
        let (id, title) = self.prompt_facts();
        let allow = match action {
            Action::InsertChar(ch) => {
                if *ch == 'y' || *ch == 'Y' {
                    true
                } else if *ch == 'n' || *ch == 'N' {
                    false
                } else {
                    return effect::no_effects();
                }
            },
            Action::Escape | Action::CtrlC => false,
            _ => return effect::no_effects(),
        };
        self.close_confirm();
        let (decision, verb) = if allow {
            (ConfirmationDecision::Allow, "allowed: ")
        } else {
            (ConfirmationDecision::Deny, "denied: ")
        };
        let text = strs::cat(verb, title.as_str());
        effect::two_effects(
            effect::append_line(meta(text.as_str())),
            Effect::Host(HostRequest::Respond(id, decision)),
        )
    }

    /// Asks for the preview of the highlighted session.
    pub fn refresh_picker_preview(&mut self) -> (effects: Vec<Effect>)
        requires
            old(self).wf(),
        ensures
            final(self).wf(),
            (final(self)@, effects.deep_view()) == preview_refreshed(old(self)@),
    {
        proof {
            reveal(preview_refreshed);
        }
        if self.is_models_picker() {
            return effect::no_effects();
        }
        match self.claim_preview() {
            Some(id) => effect::one_effect(Effect::Host(HostRequest::LoadPreview(id))),
            None => effect::no_effects(),
        }
    }

    fn switch_model(&mut self, name: String, said: &str, effort: Option<FrontendReasoningEffort>)
        -> (effects: Vec<Effect>)
        requires
            old(self).wf(),
        ensures
            final(self).wf(),
            (final(self)@, effects.deep_view()) == model_switched(
                old(self)@,
                name@,
                said@,
                effort,
            ),
    {
        self.close_picker();
        self.expect_model_switch();
        effect::two_effects(
            effect::append_line(meta(said)),
            Effect::Host(HostRequest::RebuildModel { name, effort }),
        )
    }

    /// Enter in the model picker.
    pub fn submit_models_picker(&mut self) -> (effects: Vec<Effect>)
        requires
            old(self).wf(),
            old(self)@.picker is Some,
        ensures
            final(self).wf(),
            (final(self)@, effects.deep_view()) == model_submitted(
                old(self)@,
                old(self)@.picker->0,
            ),
    {
        proof {
            reveal(model_submitted);
        }
        let mut picker = self.take_picker();
        if !picker.in_tier_mode() {
            if picker.highlighted_has_tiers() {
                picker.toggle_tier_mode();
                self.put_picker(picker);
                return effect::no_effects();
            }
            let id = picker.selected().to_owned();
            let said = strs::cat3("switching model to ", id.as_str(), "...");
            return self.switch_model(id, said.as_str(), None);
        }
        let (id, tier) = match picker.selected_tier() {
            Some(choice) => choice,
            None => {
                self.put_picker(picker);
                return effect::no_effects();
            },
        };
        let effort = match command::parse_reasoning(tier.as_str()) {
            Some(effort) => effort,
            None => {
                let text = strs::cat("unknown reasoning tier: ", tier.as_str());
                return effect::say(error(text.as_str()));
            },
        };
        if picker.selected_is_current() {
            if picker.selected_tier_is_current() {
                let text = strs::cat("reasoning already ", tier.as_str());
                return effect::say(meta(text.as_str()));
            }
            return effect::one_effect(Effect::Host(HostRequest::SetReasoning(effort)));
        }
        let mut said = strs::cat3("switching model to ", id.as_str(), " (reasoning ");
        said.push_str(tier.as_str());
        said.push_str(")...");
        self.switch_model(id, said.as_str(), Some(effort))
    }

    fn expect_switch(&mut self)
        requires
            old(self).wf(),
        ensures
            final(self).wf(),
            final(self)@ == (AppView {
                session_load_intent: Some(SessionLoadIntent::Switch),
                ..old(self)@
            }),
    {
        proof {
            reveal(App::model);
            reveal(App::wf);
        }
        self.session_load_intent = Some(SessionLoadIntent::Switch);
    }

    /// Enter in the session picker.
    fn submit_sessions_picker(&mut self) -> (effects: Vec<Effect>)
        requires
            old(self).wf(),
            old(self)@.picker is Some,
        ensures
            final(self).wf(),
            (final(self)@, effects.deep_view()) == session_submitted(
                old(self)@,
                old(self)@.picker->0,
            ),
    {
        proof {
            reveal(session_submitted);
        }
        if self.has_activity() {
            return effect::say(
                error(
                    "error: the agent is still active; cancel it with Esc before switching sessions",
                ),
            );
        }
        let picker = self.take_picker();
        let id = picker.selected().to_owned();
        self.expect_switch();
        effect::one_effect(Effect::Host(HostRequest::SwitchSession(id)))
    }

    fn picker_mode(&self) -> (mode: (bool, bool))
        requires
            self@.picker is Some,
        ensures
            mode.0 == self@.picker->0.grouped,
            mode.1 == self@.picker->0.tier_mode,
    {
        proof {
            reveal(App::model);
            reveal(App::wf);
        }
        match &self.picker {
            Some(picker) => (picker.is_models(), picker.in_tier_mode()),
            None => (false, false),
        }
    }

    fn step_picker(&mut self, up: bool) -> (moved: bool)
        requires
            old(self).wf(),
            old(self)@.picker is Some,
        ensures
            final(self).wf(),
            final(self)@ == with_picker(old(self)@, picker_stepped(old(self)@.picker->0, up)),
            !old(self)@.picker->0.tier_mode ==> moved == list_moved(old(self)@.picker->0, up),
    {
        let mut picker = self.take_picker();
        let moved = if picker.in_tier_mode() {
            picker.move_tier(up)
        } else if up {
            picker.move_up()
        } else {
            picker.move_down()
        };
        self.put_picker(picker);
        moved
    }

    fn jump_picker(&mut self, to_top: bool)
        requires
            old(self).wf(),
            old(self)@.picker is Some,
        ensures
            final(self).wf(),
            final(self)@ == with_picker(old(self)@, picker_jumped(old(self)@.picker->0, to_top)),
    {
        let mut picker = self.take_picker();
        if picker.in_tier_mode() {
            picker.jump_tier(to_top);
        } else {
            picker.jump(to_top);
        }
        self.put_picker(picker);
    }

    fn flip_picker(&mut self)
        requires
            old(self).wf(),
            old(self)@.picker is Some,
        ensures
            final(self).wf(),
            final(self)@ == with_picker(old(self)@, toggled(old(self)@.picker->0)),
    {
        let mut picker = self.take_picker();
        picker.toggle_tier_mode();
        self.put_picker(picker);
    }

    fn filter_picker(&mut self, typed: Option<char>)
        requires
            old(self).wf(),
            old(self)@.picker is Some,
        ensures
            final(self).wf(),
            final(self)@ == with_picker(
                old(self)@,
                match typed {
                    Some(ch) => filter_typed(old(self)@.picker->0, ch),
                    None => filter_erased(old(self)@.picker->0),
                },
            ),
    {
        let mut picker = self.take_picker();
        match typed {
            Some(ch) => picker.push_filter(ch),
            None => picker.pop_filter(),
        }
        self.put_picker(picker);
    }

    /// An action while a picker is open: printable keys belong to its filter,
    /// never to the draft.
    pub fn on_picker_action(&mut self, action: &Action) -> (effects: Vec<Effect>)
        requires
            old(self).wf(),
            old(self)@.picker is Some,
        ensures
            final(self).wf(),
            (final(self)@, effects.deep_view()) == picker_acted(
                old(self)@,
                old(self)@.picker->0,
                *action,
            ),
    {
        proof {
            reveal(picker_acted);
        }
        let (is_models, in_tier_mode) = self.picker_mode();
        match action {
            Action::InsertChar(ch) => {
                if in_tier_mode {
                    return effect::no_effects();
                }
                self.filter_picker(Some(*ch));
                self.refresh_picker_preview()
            },
            Action::Backspace => {
                if !in_tier_mode {
                    self.filter_picker(None);
                }
                effect::no_effects()
            },
            Action::MoveUp => self.move_picker(true),
            Action::MoveDown => self.move_picker(false),
            Action::Home => {
                self.jump_picker(true);
                effect::no_effects()
            },
            Action::End => {
                self.jump_picker(false);
                effect::no_effects()
            },
            Action::Complete => {
                if is_models {
                    self.flip_picker();
                }
                effect::no_effects()
            },
            Action::Submit => {
                if is_models {
                    self.submit_models_picker()
                } else {
                    self.submit_sessions_picker()
                }
            },
            Action::Escape => {
                if is_models && in_tier_mode {
                    self.flip_picker();
                } else {
                    self.close_picker();
                }
                effect::no_effects()
            },
            Action::CtrlC => {
                self.close_picker();
                effect::no_effects()
            },
            _ => effect::no_effects(),
        }
    }

    fn move_picker(&mut self, up: bool) -> (effects: Vec<Effect>)
        requires
            old(self).wf(),
            old(self)@.picker is Some,
        ensures
            final(self).wf(),
            ({
                let p = old(self)@.picker->0;
                let b = with_picker(old(self)@, picker_stepped(p, up));
                (final(self)@, effects.deep_view()) == (if p.grouped || p.tier_mode || !list_moved(
                    p,
                    up,
                ) {
                    (b, nothing())
                } else {
                    preview_refreshed(b)
                })
            }),
    {
        let (is_models, in_tier_mode) = self.picker_mode();
        let moved = self.step_picker(up);
        if !moved || is_models || in_tier_mode {
            return effect::no_effects();
        }
        self.refresh_picker_preview()
    }
}

// ---------------------------------------------------------------------------
// Laws
// ---------------------------------------------------------------------------

/// The draft, the attachments and a held message are what they were.
pub open spec fn draft_spared(a: AppView, b: AppView) -> bool {
    b.input == a.input && b.attachments == a.attachments && b.submit_state == a.submit_state
}

proof fn preview_spares_the_draft(a: AppView)
    ensures
        draft_spared(a, preview_refreshed(a).0),
{
    reveal(preview_refreshed);
}

proof fn submit_spares_the_draft(a: AppView, p: PickerView)
    ensures
        draft_spared(a, model_submitted(a, p).0),
        draft_spared(a, session_submitted(a, p).0),
{
    reveal(model_submitted);
    reveal(session_submitted);
}

/// An overlay never touches the draft, the attachments or a held message.
pub proof fn overlays_spare_the_draft(
    a: AppView,
    prompt: PromptView,
    p: PickerView,
    action: Action,
)
    ensures
        draft_spared(a, confirm_acted(a, prompt, action).0),
        draft_spared(a, picker_acted(a, p, action).0),
{
    reveal(confirm_acted);
    reveal(picker_acted);
    submit_spares_the_draft(a, p);
    preview_spares_the_draft(with_picker(a, picker_stepped(p, action is MoveUp)));
    if let Action::InsertChar(ch) = action {
        preview_spares_the_draft(with_picker(a, filter_typed(p, ch)));
    }
}

/// A prompt stays until it is answered, and an answer names its request.
pub proof fn approvals_are_answered_once(a: AppView, prompt: PromptView, action: Action)
    requires
        a.confirm == Some(prompt),
    ensures
        answer_of(action) is None ==> confirm_acted(a, prompt, action) == (a, nothing()),
        answer_of(action) is Some ==> {
            &&& confirm_acted(a, prompt, action).0.confirm is None
            &&& confirm_acted(a, prompt, action).1.len() == 2
            &&& confirm_acted(a, prompt, action).1[1] == EffectView::Host(
                RequestView::Respond(prompt.id, answer_of(action)->0),
            )
        },
{
    reveal(confirm_acted);
}

/// Only `y` allows, in either case; `n`, `Esc` and `Ctrl+C` deny, and every other
/// key leaves the question open.
pub proof fn only_y_allows(a: AppView, prompt: PromptView, action: Action)
    ensures
        ({
            let (next, effects) = confirm_acted(a, prompt, action);
            let yes = action == Action::InsertChar('y') || action == Action::InsertChar('Y');
            let no = action == Action::InsertChar('n') || action == Action::InsertChar('N')
                || action is Escape || action is CtrlC;
            &&& yes ==> next.confirm is None && effects.contains(
                EffectView::Host(RequestView::Respond(prompt.id, ConfirmationDecision::Allow)),
            ) && effects[0] == EffectView::Append(seq![meta_line("allowed: "@ + prompt.title)])
            &&& no ==> next.confirm is None && effects.contains(
                EffectView::Host(RequestView::Respond(prompt.id, ConfirmationDecision::Deny)),
            ) && effects[0] == EffectView::Append(seq![meta_line("denied: "@ + prompt.title)])
            &&& !yes && !no ==> next == a && effects.len() == 0
        }),
{
    reveal(confirm_acted);
    if answer_of(action) is Some {
        let effects = confirm_acted(a, prompt, action).1;
        assert(effects.contains(effects[1]));
    }
}

/// In a list typing narrows the filter and erasing widens it; `Esc` and `Ctrl+C`
/// close the picker and ask for nothing.
pub proof fn picker_keys_edit_the_filter(a: AppView, p: PickerView, ch: char)
    requires
        a.picker == Some(p),
        !p.tier_mode,
    ensures
        picker_acted(a, p, Action::InsertChar(ch)).0.picker is Some,
        picker_acted(a, p, Action::InsertChar(ch)).0.picker.unwrap().filter == p.filter.push(ch),
        picker_acted(a, p, Action::InsertChar(ch)).0.picker.unwrap().entries == p.entries,
        p.filter.len() > 0 ==> picker_acted(a, p, Action::Backspace).0.picker.unwrap().filter
            == p.filter.drop_last(),
        p.filter.len() == 0 ==> picker_acted(a, p, Action::Backspace).0 == a,
        picker_acted(a, p, Action::Escape) == (
            AppView { picker: None, ..a },
            Seq::<EffectView>::empty(),
        ),
        picker_acted(a, p, Action::CtrlC) == (
            AppView { picker: None, ..a },
            Seq::<EffectView>::empty(),
        ),
{
    reveal(picker_acted);
    reveal(preview_refreshed);
}

/// In a list the highlight moves entry by entry among those that are listed, and
/// `Home` and `End` go to its ends.
pub proof fn picker_keys_move_the_highlight(a: AppView, p: PickerView)
    requires
        a.picker == Some(p),
        !p.tier_mode,
        p.selected < visible_of(p).len() <= usize::MAX,
    ensures
        p.selected > 0 ==> picker_acted(a, p, Action::MoveUp).0.picker.unwrap().selected
            == p.selected - 1,
        p.selected == 0 ==> picker_acted(a, p, Action::MoveUp).0.picker.unwrap().selected == 0,
        p.selected + 1 < visible_of(p).len() ==> picker_acted(
            a,
            p,
            Action::MoveDown,
        ).0.picker.unwrap().selected == p.selected + 1,
        p.selected + 1 == visible_of(p).len() ==> picker_acted(
            a,
            p,
            Action::MoveDown,
        ).0.picker.unwrap().selected == p.selected,
        picker_acted(a, p, Action::Home).0.picker.unwrap().selected == 0,
        picker_acted(a, p, Action::End).0.picker.unwrap().selected == visible_of(p).len() - 1,
{
    reveal(picker_acted);
    reveal(preview_refreshed);
}

/// Choosing a session switches to the one that is highlighted, and only while the
/// agent is idle: otherwise the picker stays and says why.
pub proof fn choosing_a_session_switches_to_it(a: AppView, p: PickerView)
    requires
        a.picker == Some(p),
        !p.grouped,
        visible_of(p).len() > 0,
        p.selected < visible_of(p).len(),
    ensures
        ({
            let (next, effects) = picker_acted(a, p, Action::Submit);
            let chosen = p.entries[visible_of(p)[p.selected as int] as int].id;
            &&& !active(a) ==> next.picker is None && effects == seq![
                EffectView::Host(RequestView::SwitchSession(chosen)),
            ] && next.session_load_intent == Some(SessionLoadIntent::Switch)
            &&& active(a) ==> next == a && effects.len() == 1 && effects[0] is Append
        }),
{
    reveal(picker_acted);
    reveal(session_submitted);
}

/// Choosing a model without tiers switches to it; one with tiers asks for the
/// tier first, and a tier then switches the model with it, or only the level of
/// the model in use.
pub proof fn choosing_a_model_switches_to_it(a: AppView, p: PickerView)
    requires
        a.picker == Some(p),
        p.grouped,
        p.selected < visible_of(p).len(),
    ensures
        ({
            let (next, effects) = picker_acted(a, p, Action::Submit);
            let chosen = p.entries[visible_of(p)[p.selected as int] as int];
            let tier = chosen.tiers[p.tier_selected as int];
            &&& !p.tier_mode && chosen.tiers.len() == 0 ==> next.picker is None
                && next.pending_model_switch && effects.len() == 2 && effects[1]
                == EffectView::Host(RequestView::RebuildModel { name: chosen.id, effort: None })
            &&& !p.tier_mode && chosen.tiers.len() > 0 ==> effects.len() == 0 && next.picker is Some
                && next.picker.unwrap().tier_mode
            &&& p.tier_mode && p.tier_selected < chosen.tiers.len() && effort_for(tier) is Some
                && !chosen.marked ==> next.picker is None && effects.len() == 2 && effects[1]
                == EffectView::Host(
                RequestView::RebuildModel { name: chosen.id, effort: effort_for(tier) },
            )
            &&& p.tier_mode && p.tier_selected < chosen.tiers.len() && effort_for(tier) is Some
                && chosen.marked && p.current_effort != Some(lower_text(tier)) ==> next.picker
                is None && effects == seq![
                EffectView::Host(RequestView::SetReasoning(effort_for(tier).unwrap())),
            ]
            &&& p.tier_mode && p.tier_selected < chosen.tiers.len() && effort_for(tier) is Some
                && chosen.marked && p.current_effort == Some(lower_text(tier)) ==> next.picker
                is None && effects.len() == 1 && effects[0] is Append
        }),
{
    reveal(picker_acted);
    reveal(model_submitted);
}

/// A session that comes into focus is previewed: its preview is asked for once,
/// and shown as loading until it comes.
pub proof fn previews_are_asked_for_once(a: AppView, p: PickerView)
    requires
        a.picker == Some(p),
        !p.grouped,
        selected_id(p).len() > 0,
        preview_of(p.previews, selected_id(p)) is None,
    ensures
        preview_refreshed(a).1 == seq![EffectView::Host(RequestView::LoadPreview(selected_id(p)))],
        preview_refreshed(preview_refreshed(a).0).1.len() == 0,
        preview_of(
            preview_refreshed(a).0.picker.unwrap().previews,
            selected_id(p),
        ) == Some(PreviewView::Loading),
{
    reveal(preview_refreshed);
    let next = claimed(p);
    crate::app::overlay::previews_are_claimed_once(
        p.previews,
        selected_id(p),
        PreviewView::Loading,
    );
    assert(visible_of(next) == visible_of(p));
    assert(selected_id(next) == selected_id(p));
}

/// The question that is shown is the one in front, and none where none waits.
pub proof fn the_front_question_is_shown(a: AppView, prompt: PromptView)
    ensures
        front_shown(a, None).confirm is None,
        front_shown(a, Some(prompt)).confirm is Some,
        front_shown(a, Some(prompt)).confirm.unwrap().id == prompt.id,
        a.confirm is None ==> front_shown(a, Some(prompt)).confirm == Some(prompt),
{
}

} // verus!
