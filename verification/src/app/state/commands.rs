//! Running slash commands, and the menu that completes them.

use vstd::prelude::*;

use super::menu;
use super::menu::{menu_for, CommandMenu, CommandMenuFrame, MenuView};
use super::{App, AppView, SessionLoadIntent};
use crate::app::attachment::{AttachmentView, PendingAttachment};
use crate::app::command;
use crate::app::command::{
    command_word, effort_for, help, parsed, Command, CommandView, REASONING_LEVELS,
};
use crate::app::effect;
use crate::app::effect::{nothing, Effect, EffectView, HostRequest, RequestView};
use crate::app::input::{blank, draft, filled, HistoryView};
use crate::app::run_state;
use crate::app::run_state::{Phase, RunView};
use crate::app::transcript;
use crate::app::transcript::{plain_line, InfoLevel, LineKind, LineView, TranscriptLine};
use crate::strs;
use crate::strs::{begins, decimal};

verus! {

/// Whether a turn or a compaction runs.
pub open spec fn active(a: AppView) -> bool {
    a.status.busy || a.status.compacting
}

/// The draft changed hands or contents.
pub open spec fn bumped(a: AppView) -> AppView {
    AppView {
        draft_generation: if a.draft_generation == u64::MAX {
            0
        } else {
            (a.draft_generation + 1) as u64
        },
        ..a
    }
}

/// The menu re-derived from the draft.
pub open spec fn synced(a: AppView) -> AppView {
    AppView { completion: menu_for(a.completion, draft(a.input)), ..a }
}

/// Leaving while busy stays confirmed only while the draft can become `/quit`.
pub open spec fn disarmed(a: AppView) -> AppView {
    AppView { quit_armed: a.quit_armed && begins("/quit"@, draft(a.input)), ..a }
}

/// The information level flipped.
pub open spec fn releveled(a: AppView) -> AppView {
    let level = if a.level == InfoLevel::Default {
        InfoLevel::Verbose
    } else {
        InfoLevel::Default
    };
    AppView {
        level,
        status: crate::app::status::StatusView { level, ..a.status },
        ..a
    }
}

/// The line that names a level.
pub open spec fn level_line(level: InfoLevel) -> LineView {
    plain_line(
        LineKind::Meta,
        "info level: "@ + if level == InfoLevel::Verbose {
            "verbose"@
        } else {
            "default"@
        },
    )
}

/// A manual compaction begins.
pub open spec fn compaction_begun(a: AppView, now: u64) -> AppView {
    AppView {
        manual_compacting: true,
        run_state: run_state::replaced(
            RunView { live: Seq::empty(), ..a.run_state },
            Phase::Compacting,
            now,
        ),
        status: crate::app::status::StatusView { compacting: true, ..a.status },
        ..a
    }
}

/// The echo of a command and one line in reply.
#[verifier::opaque]
pub open spec fn replies(echo: LineView, line: LineView) -> Seq<EffectView> {
    seq![EffectView::Append(seq![echo, line])]
}

/// The echo of a command and one effect.
#[verifier::opaque]
pub open spec fn asks(echo: LineView, effect: EffectView) -> Seq<EffectView> {
    seq![EffectView::Append(seq![echo]), effect]
}

pub open spec fn error_line(text: Seq<char>) -> LineView {
    plain_line(LineKind::Error, text)
}

pub open spec fn meta_line(text: Seq<char>) -> LineView {
    plain_line(LineKind::Meta, text)
}

pub open spec fn notice_line(text: Seq<char>) -> LineView {
    plain_line(LineKind::Notice, text)
}

/// The help as transcript lines, behind the echo.
#[verifier::opaque]
pub open spec fn help_reply(echo: LineView) -> Seq<EffectView> {
    let rows = help();
    seq![
        EffectView::Append(
            seq![echo] + Seq::new(rows.len(), |i: int| meta_line(rows[i])),
        ),
    ]
}

/// `/new`: refused while the agent is active.
#[verifier::opaque]
pub open spec fn ran_new(a: AppView, echo: LineView) -> (AppView, Seq<EffectView>) {
    if active(a) {
        (
            a,
            replies(
                echo,
                error_line(
                    "error: the agent is still active; cancel it with Esc before starting a new session"@,
                ),
            ),
        )
    } else {
        (
            AppView { session_load_intent: Some(SessionLoadIntent::New), ..a },
            asks(echo, EffectView::Host(RequestView::NewSession)),
        )
    }
}

/// `/reasoning`: a level by its name.
#[verifier::opaque]
pub open spec fn ran_reasoning(echo: LineView, level: Option<Seq<char>>) -> Seq<EffectView> {
    match level {
        None => replies(
            echo,
            error_line("usage: /reasoning <level> ("@ + REASONING_LEVELS@ + ")"@),
        ),
        Some(level) => match effort_for(level) {
            Some(effort) => asks(echo, EffectView::Host(RequestView::SetReasoning(effort))),
            None => replies(
                echo,
                error_line(
                    "unknown reasoning level: "@ + level + " (expected "@ + REASONING_LEVELS@
                        + ")"@,
                ),
            ),
        },
    }
}

/// `/compact`: only while idle.
#[verifier::opaque]
pub open spec fn ran_compact(a: AppView, echo: LineView, now: u64) -> (AppView, Seq<EffectView>) {
    if a.status.compacting {
        (
            a,
            replies(
                echo,
                error_line(
                    "error: context compaction is already running; press Esc to cancel it"@,
                ),
            ),
        )
    } else if a.status.busy {
        (
            a,
            replies(
                echo,
                error_line(
                    "error: context can only be compacted while idle; a turn is still running"@,
                ),
            ),
        )
    } else {
        (compaction_begun(a, now), asks(echo, EffectView::StartCompaction))
    }
}

/// `/image`: queues a path for the next message.
#[verifier::opaque]
pub open spec fn ran_image(a: AppView, echo: LineView, path: Option<Seq<char>>) -> (
    AppView,
    Seq<EffectView>,
) {
    match path {
        None => (a, replies(echo, error_line("usage: /image <path>"@))),
        Some(path) => {
            let items = a.attachments.push(AttachmentView::Path(path));
            (
                AppView { attachments: items, ..bumped(a) },
                replies(
                    echo,
                    meta_line(
                        "image queued: "@ + path + " ("@ + decimal(items.len())
                            + " waiting for the next message)"@,
                    ),
                ),
            )
        },
    }
}

/// `/quit`: asks once while the agent is active.
#[verifier::opaque]
pub open spec fn ran_quit(a: AppView, echo: LineView, armed: bool) -> (AppView, Seq<EffectView>) {
    if active(a) && !armed {
        (
            AppView { quit_armed: true, ..a },
            replies(
                echo,
                notice_line(
                    "the agent is still active: press Esc to cancel it, or /quit again to leave anyway"@,
                ),
            ),
        )
    } else if active(a) {
        (a, asks(echo, EffectView::RequestShutdown))
    } else {
        (a, asks(echo, EffectView::Quit))
    }
}

/// One command, run. Only a repeated `/quit` stays armed.
#[verifier::opaque]
pub open spec fn ran(was: AppView, text: Seq<char>, now: u64) -> (AppView, Seq<EffectView>) {
    let a = AppView { quit_armed: false, ..was };
    let echo = meta_line(text);
    match parsed(text) {
        None => (
            a,
            replies(
                echo,
                error_line("unknown command: /"@ + command_word(text) + " (try /help)"@),
            ),
        ),
        Some(CommandView::Help) => (a, help_reply(echo)),
        Some(CommandView::New) => ran_new(a, echo),
        Some(CommandView::Sessions) => (
            a,
            asks(echo, EffectView::Host(RequestView::OpenSessions)),
        ),
        Some(CommandView::Rename { title: None }) => (
            a,
            replies(echo, error_line("usage: /rename <title>"@)),
        ),
        Some(CommandView::Rename { title: Some(title) }) => (
            a,
            asks(echo, EffectView::Host(RequestView::RenameSession { title })),
        ),
        Some(CommandView::Model { name: None }) => (
            a,
            replies(echo, error_line("usage: /model <name>"@)),
        ),
        Some(CommandView::Model { name: Some(name) }) => (
            AppView { pending_model_switch: true, ..a },
            asks(echo, EffectView::Host(RequestView::RebuildModel { name, effort: None })),
        ),
        Some(CommandView::Reasoning { level }) => (a, ran_reasoning(echo, level)),
        Some(CommandView::Compact) => ran_compact(a, echo, now),
        Some(CommandView::Image { path }) => ran_image(a, echo, path),
        Some(CommandView::Verbose) => (
            releveled(a),
            replies(echo, level_line(releveled(a).level)),
        ),
        Some(CommandView::Status) => (a, asks(echo, EffectView::Host(RequestView::ShowStatus))),
        Some(CommandView::Config) => (
            AppView { expect_config_listing: true, ..a },
            asks(echo, EffectView::Host(RequestView::ShowConfig)),
        ),
        Some(CommandView::Quit) => ran_quit(a, echo, was.quit_armed),
    }
}

/// The highlight of an open menu moved.
pub open spec fn menu_moved(a: AppView, up: bool) -> AppView {
    match a.completion {
        None => a,
        Some(menu) => AppView {
            completion: Some(
                MenuView {
                    selected: if up {
                        if menu.selected > 0 {
                            (menu.selected - 1) as usize
                        } else {
                            0
                        }
                    } else if menu.selected + 1 < menu.candidates.len() {
                        (menu.selected + 1) as usize
                    } else {
                        menu.selected
                    },
                    ..menu
                },
            ),
            ..a
        },
    }
}

/// The highlighted command.
pub open spec fn highlighted(menu: MenuView) -> Seq<char> {
    menu.candidates[menu.selected as int]
}

/// The highlighted command filled in, ready for its argument.
pub open spec fn menu_accepted(a: AppView) -> AppView {
    match a.completion {
        None => a,
        Some(menu) => AppView {
            input: filled("/"@ + highlighted(menu) + " "@),
            completion: None,
            ..bumped(a)
        },
    }
}

/// The text remembered as the newest submission.
pub open spec fn remembered(h: HistoryView, text: Seq<char>) -> HistoryView {
    HistoryView { entries: h.entries.push(text), cursor: None, stash: None }
}

/// The highlighted command run as if it had been typed and submitted.
pub open spec fn menu_executed(a: AppView, now: u64) -> (AppView, Seq<EffectView>) {
    match a.completion {
        None => (a, nothing()),
        Some(menu) => {
            let text = "/"@ + highlighted(menu);
            ran(
                AppView {
                    input: blank(),
                    completion: None,
                    history: remembered(a.history, text),
                    ..bumped(a)
                },
                text,
                now,
            )
        },
    }
}

fn reply(echo: TranscriptLine, line: TranscriptLine) -> (effects: Vec<Effect>)
    ensures
        effects.deep_view() == replies(echo.deep_view(), line.deep_view()),
{
    proof {
        reveal(replies);
    }
    let mut lines: Vec<TranscriptLine> = Vec::new();
    lines.push(echo);
    lines.push(line);
    assert(lines.deep_view() =~= seq![echo.deep_view(), line.deep_view()]);
    effect::one_effect(Effect::Append(lines))
}

fn ask(echo: TranscriptLine, request: Effect) -> (effects: Vec<Effect>)
    ensures
        effects.deep_view() == asks(echo.deep_view(), request.deep_view()),
{
    proof {
        reveal(asks);
    }
    effect::two_effects(effect::append_line(echo), request)
}

pub(crate) fn error(text: &str) -> (line: TranscriptLine)
    ensures
        line.deep_view() == error_line(text@),
{
    transcript::line(LineKind::Error, text)
}

pub(crate) fn meta(text: &str) -> (line: TranscriptLine)
    ensures
        line.deep_view() == meta_line(text@),
{
    transcript::line(LineKind::Meta, text)
}

pub(crate) fn notice(text: &str) -> (line: TranscriptLine)
    ensures
        line.deep_view() == notice_line(text@),
{
    transcript::line(LineKind::Notice, text)
}

fn show_help(echo: TranscriptLine) -> (effects: Vec<Effect>)
    ensures
        effects.deep_view() == help_reply(echo.deep_view()),
{
    proof {
        reveal(help_reply);
    }
    let rows = command::help_lines();
    let ghost all = rows.deep_view();
    let ghost first = echo.deep_view();
    let mut lines: Vec<TranscriptLine> = Vec::new();
    lines.push(echo);
    let mut i: usize = 0;
    while i < rows.len()
        invariant
            i <= rows.len(),
            all == rows.deep_view(),
            lines.len() == i + 1,
            lines@[0].deep_view() == first,
            forall|k: int|
                1 <= k <= i ==> (#[trigger] lines@[k]).deep_view() == meta_line(all[k - 1]),
        decreases rows.len() - i,
    {
        lines.push(meta(rows[i].as_str()));
        i += 1;
    }
    assert(lines.deep_view() =~= seq![first] + Seq::new(all.len(), |i: int| meta_line(all[i])));
    effect::one_effect(Effect::Append(lines))
}

fn run_reasoning(echo: TranscriptLine, level: &Option<String>) -> (effects: Vec<Effect>)
    ensures
        effects.deep_view() == ran_reasoning(echo.deep_view(), level.deep_view()),
{
    proof {
        reveal(ran_reasoning);
    }
    match level {
        None => {
            let text = strs::cat3("usage: /reasoning <level> (", REASONING_LEVELS, ")");
            reply(echo, error(text.as_str()))
        },
        Some(level) => match command::parse_reasoning(level.as_str()) {
            Some(effort) => ask(echo, Effect::Host(HostRequest::SetReasoning(effort))),
            None => {
                let mut text = strs::cat3(
                    "unknown reasoning level: ",
                    level.as_str(),
                    " (expected ",
                );
                text.push_str(REASONING_LEVELS);
                text.push_str(")");
                reply(echo, error(text.as_str()))
            },
        },
    }
}

impl App {
    pub fn has_activity(&self) -> (yes: bool)
        ensures
            yes == active(self@),
    {
        proof {
            reveal(App::model);
            reveal(App::wf);
        }
        self.status.busy || self.status.compacting
    }

    pub(crate) fn bump_draft_generation(&mut self)
        requires
            old(self).wf(),
        ensures
            final(self).wf(),
            final(self)@ == bumped(old(self)@),
    {
        proof {
            reveal(App::model);
            reveal(App::wf);
        }
        self.draft_generation = self.draft_generation.wrapping_add(1);
    }

    /// The frame of the menu, while it is open.
    pub fn command_menu_frame(&self, width: usize, max_rows: usize) -> (frame: Option<
        CommandMenuFrame,
    >)
        requires
            self.wf(),
        ensures
            match frame {
                Some(frame) => {
                    &&& self@.completion is Some
                    &&& frame.rows.deep_view() == menu::menu_rows(
                        self@.completion->0,
                        width as nat,
                        max_rows as nat,
                    )
                    &&& frame.selected == self@.completion->0.selected - menu::frame_start(
                        self@.completion->0,
                        max_rows as nat,
                    )
                },
                None => self@.completion is None,
            },
    {
        proof {
            reveal(App::model);
            reveal(App::wf);
        }
        match &self.completion {
            Some(menu) => Some(menu.frame(width, max_rows)),
            None => None,
        }
    }

    /// Re-derives the menu from the draft.
    pub(crate) fn sync_completion(&mut self)
        requires
            old(self).wf(),
        ensures
            final(self).wf(),
            final(self)@ == synced(old(self)@),
    {
        proof {
            reveal(App::model);
            reveal(App::wf);
            reveal(menu_for);
        }
        let text = self.input.text();
        let names = menu::candidate_names(text.as_str());
        assert(names.deep_view().len() == names@.len());
        if names.len() == 0 {
            self.completion = None;
            return ;
        }
        let mut open: Option<CommandMenu> = None;
        std::mem::swap(&mut open, &mut self.completion);
        match open {
            Some(mut menu) => {
                menu.update(names);
                self.completion = Some(menu);
            },
            None => {
                self.completion = Some(CommandMenu::new(names));
            },
        }
    }

    /// `Tab`: accepts the highlighted command while the menu is open, otherwise
    /// opens the menu over the draft.
    pub fn complete(&mut self)
        requires
            old(self).wf(),
        ensures
            final(self).wf(),
            final(self)@ == (if old(self)@.completion is Some {
                menu_accepted(old(self)@)
            } else {
                synced(old(self)@)
            }),
    {
        proof {
            reveal(App::model);
            reveal(App::wf);
        }
        if self.completion.is_some() {
            self.accept_completion();
        } else {
            self.sync_completion();
        }
    }

    /// Fills `/name ` in and closes the menu.
    pub fn accept_completion(&mut self)
        requires
            old(self).wf(),
        ensures
            final(self).wf(),
            final(self)@ == menu_accepted(old(self)@),
    {
        proof {
            reveal(App::model);
            reveal(App::wf);
        }
        let name = match &self.completion {
            Some(menu) => menu.selected_name(),
            None => return ,
        };
        self.bump_draft_generation();
        let text = strs::cat3("/", name, " ");
        self.input.set_text(text.as_str());
        self.completion = None;
    }

    /// Moves the highlight of an open menu.
    pub fn move_completion(&mut self, up: bool)
        requires
            old(self).wf(),
        ensures
            final(self).wf(),
            final(self)@ == menu_moved(old(self)@, up),
    {
        proof {
            reveal(App::model);
            reveal(App::wf);
        }
        let mut open: Option<CommandMenu> = None;
        std::mem::swap(&mut open, &mut self.completion);
        if let Some(mut menu) = open {
            if up {
                menu.move_up();
            } else {
                menu.move_down();
            }
            self.completion = Some(menu);
        }
    }

    /// Runs the highlighted command as if it had been typed and submitted.
    pub fn execute_completion(&mut self, now: u64) -> (effects: Vec<Effect>)
        requires
            old(self).wf(),
        ensures
            final(self).wf(),
            (final(self)@, effects.deep_view()) == menu_executed(old(self)@, now),
    {
        proof {
            reveal(App::model);
            reveal(App::wf);
        }
        let name = match &self.completion {
            Some(menu) => menu.selected_name(),
            None => return effect::no_effects(),
        };
        let text = strs::cat("/", name);
        self.input.clear();
        self.bump_draft_generation();
        self.completion = None;
        self.history.push(text.clone());
        self.run_command(text.as_str(), now)
    }

    fn run_new(&mut self, echo: TranscriptLine) -> (effects: Vec<Effect>)
        requires
            old(self).wf(),
        ensures
            final(self).wf(),
            (final(self)@, effects.deep_view()) == ran_new(old(self)@, echo.deep_view()),
    {
        proof {
            reveal(App::model);
            reveal(App::wf);
            reveal(ran_new);
        }
        if self.has_activity() {
            return reply(
                echo,
                error(
                    "error: the agent is still active; cancel it with Esc before starting a new session",
                ),
            );
        }
        self.session_load_intent = Some(SessionLoadIntent::New);
        ask(echo, Effect::Host(HostRequest::NewSession))
    }

    fn run_compact(&mut self, echo: TranscriptLine, now: u64) -> (effects: Vec<Effect>)
        requires
            old(self).wf(),
        ensures
            final(self).wf(),
            (final(self)@, effects.deep_view()) == ran_compact(old(self)@, echo.deep_view(), now),
    {
        proof {
            reveal(App::model);
            reveal(App::wf);
            reveal(ran_compact);
        }
        if self.status.compacting {
            return reply(
                echo,
                error("error: context compaction is already running; press Esc to cancel it"),
            );
        }
        if self.status.busy {
            return reply(
                echo,
                error("error: context can only be compacted while idle; a turn is still running"),
            );
        }
        self.manual_compacting = true;
        self.run_state.start_manual_compaction(now);
        self.status.compacting = true;
        ask(echo, Effect::StartCompaction)
    }

    fn run_image(&mut self, echo: TranscriptLine, path: Option<String>) -> (effects: Vec<Effect>)
        requires
            old(self).wf(),
        ensures
            final(self).wf(),
            (final(self)@, effects.deep_view()) == ran_image(
                old(self)@,
                echo.deep_view(),
                path.deep_view(),
            ),
    {
        proof {
            reveal(App::model);
            reveal(App::wf);
            reveal(ran_image);
        }
        match path {
            None => reply(echo, error("usage: /image <path>")),
            Some(path) => {
                self.bump_draft_generation();
                let mut text = strs::cat3("image queued: ", path.as_str(), " (");
                self.attachments.push(PendingAttachment::Path(path));
                text.push_str(strs::number(self.attachments.len() as u64).as_str());
                text.push_str(" waiting for the next message)");
                reply(echo, meta(text.as_str()))
            },
        }
    }

    fn run_quit(&mut self, echo: TranscriptLine, armed: bool) -> (effects: Vec<Effect>)
        requires
            old(self).wf(),
        ensures
            final(self).wf(),
            (final(self)@, effects.deep_view()) == ran_quit(old(self)@, echo.deep_view(), armed),
    {
        proof {
            reveal(App::model);
            reveal(App::wf);
            reveal(ran_quit);
        }
        if self.has_activity() && !armed {
            self.quit_armed = true;
            reply(
                echo,
                notice(
                    "the agent is still active: press Esc to cancel it, or /quit again to leave anyway",
                ),
            )
        } else if self.has_activity() {
            ask(echo, Effect::RequestShutdown)
        } else {
            ask(echo, Effect::Quit)
        }
    }

    fn take_quit_armed(&mut self) -> (armed: bool)
        requires
            old(self).wf(),
        ensures
            final(self).wf(),
            final(self)@ == (AppView { quit_armed: false, ..old(self)@ }),
            armed == old(self)@.quit_armed,
    {
        proof {
            reveal(App::model);
            reveal(App::wf);
        }
        let armed = self.quit_armed;
        self.quit_armed = false;
        armed
    }

    /// A model switch waits for success or rejection.
    pub(crate) fn expect_model_switch(&mut self)
        requires
            old(self).wf(),
        ensures
            final(self).wf(),
            final(self)@ == (AppView { pending_model_switch: true, ..old(self)@ }),
    {
        proof {
            reveal(App::model);
            reveal(App::wf);
        }
        self.pending_model_switch = true;
    }

    fn await_config_listing(&mut self)
        requires
            old(self).wf(),
        ensures
            final(self).wf(),
            final(self)@ == (AppView { expect_config_listing: true, ..old(self)@ }),
    {
        proof {
            reveal(App::model);
            reveal(App::wf);
        }
        self.expect_config_listing = true;
    }

    /// Runs one slash command: its echo comes first, then what it answers or
    /// asks for.
    pub fn run_command(&mut self, text: &str, now: u64) -> (effects: Vec<Effect>)
        requires
            old(self).wf(),
        ensures
            final(self).wf(),
            (final(self)@, effects.deep_view()) == ran(old(self)@, text@, now),
    {
        proof {
            reveal(ran);
        }
        let armed = self.take_quit_armed();
        let echo = meta(text);
        match command::parse(text) {
            Err(unknown) => {
                let words = strs::cat3("unknown command: /", unknown.word(), " (try /help)");
                reply(echo, error(words.as_str()))
            },
            Ok(Command::Help) => show_help(echo),
            Ok(Command::New) => self.run_new(echo),
            Ok(Command::Sessions) => ask(echo, Effect::Host(HostRequest::OpenSessions)),
            Ok(Command::Rename { title }) => match title {
                None => reply(echo, error("usage: /rename <title>")),
                Some(title) => ask(echo, Effect::Host(HostRequest::RenameSession { title })),
            },
            Ok(Command::Model { name }) => match name {
                None => reply(echo, error("usage: /model <name>")),
                Some(name) => {
                    self.expect_model_switch();
                    ask(echo, Effect::Host(HostRequest::RebuildModel { name, effort: None }))
                },
            },
            Ok(Command::Reasoning { level }) => run_reasoning(echo, &level),
            Ok(Command::Compact) => self.run_compact(echo, now),
            Ok(Command::Image { path }) => self.run_image(echo, path),
            Ok(Command::Verbose) => {
                let line = self.toggle_level();
                reply(echo, line)
            },
            Ok(Command::Status) => ask(echo, Effect::Host(HostRequest::ShowStatus)),
            Ok(Command::Config) => {
                self.await_config_listing();
                ask(echo, Effect::Host(HostRequest::ShowConfig))
            },
            Ok(Command::Quit) => self.run_quit(echo, armed),
        }
    }

    pub fn toggle_level(&mut self) -> (line: TranscriptLine)
        requires
            old(self).wf(),
        ensures
            final(self).wf(),
            final(self)@ == releveled(old(self)@),
            line.deep_view() == level_line(releveled(old(self)@).level),
    {
        proof {
            reveal(App::model);
            reveal(App::wf);
        }
        let level = match self.level {
            InfoLevel::Default => InfoLevel::Verbose,
            InfoLevel::Verbose => InfoLevel::Default,
        };
        self.level = level;
        self.status.level = level;
        let name = if level == InfoLevel::Verbose {
            "verbose"
        } else {
            "default"
        };
        meta(strs::cat("info level: ", name).as_str())
    }

    /// The confirmation of a busy `/quit` survives typing the second `/quit`;
    /// an edit that can no longer become that command disarms it.
    pub fn disarm_quit_unless_typing_quit(&mut self)
        requires
            old(self).wf(),
        ensures
            final(self).wf(),
            final(self)@ == disarmed(old(self)@),
    {
        proof {
            reveal(App::model);
            reveal(App::wf);
        }
        if self.quit_armed {
            let text = self.input.text();
            if !strs::starts_with("/quit", text.as_str()) {
                self.quit_armed = false;
            }
        }
    }
}

// ---------------------------------------------------------------------------
// Laws
// ---------------------------------------------------------------------------

/// What a command leaves alone, and how its effects begin.
pub open spec fn stays_local(
    a: AppView,
    text: Seq<char>,
    result: (AppView, Seq<EffectView>),
) -> bool {
    &&& result.0.submit_state == a.submit_state
    &&& result.0.input == a.input
    &&& result.0.next_intent_id == a.next_intent_id
    &&& result.1.len() > 0
    &&& result.1[0] is Append
    &&& (result.1[0]->Append_0).len() > 0
    &&& (result.1[0]->Append_0)[0] == meta_line(text)
    &&& forall|i: int| 0 <= i < result.1.len() ==> !((#[trigger] result.1[i]) is PrepareSubmit)
}

proof fn replies_stay_local(a: AppView, text: Seq<char>, line: LineView, effect: EffectView)
    ensures
        stays_local(a, text, (a, replies(meta_line(text), line))),
        !(effect is PrepareSubmit) ==> stays_local(a, text, (a, asks(meta_line(text), effect))),
        stays_local(a, text, (a, help_reply(meta_line(text)))),
{
    reveal(replies);
    reveal(asks);
    reveal(help_reply);
}

/// A command never reaches the model: it changes neither the submission nor
/// the draft text, it asks for no submit, and its echo comes first.
pub proof fn commands_never_submit(a: AppView, text: Seq<char>, now: u64)
    ensures
        stays_local(a, text, ran(a, text, now)),
{
    reveal(ran);
    reveal(ran_new);
    reveal(ran_reasoning);
    reveal(ran_compact);
    reveal(ran_image);
    reveal(ran_quit);
    let b = ran(a, text, now).0;
    assert forall|line: LineView| true implies stays_local(
        b,
        text,
        (b, #[trigger] replies(meta_line(text), line)),
    ) by {
        replies_stay_local(b, text, line, EffectView::Quit);
    }
    assert forall|effect: EffectView| !(effect is PrepareSubmit) implies stays_local(
        b,
        text,
        (b, #[trigger] asks(meta_line(text), effect)),
    ) by {
        replies_stay_local(b, text, meta_line(text), effect);
    }
    replies_stay_local(b, text, meta_line(text), EffectView::Quit);
}

/// Leaving while the agent is active takes two `/quit`s: any other command in
/// between disarms.
pub proof fn busy_quit_asks_twice(a: AppView, text: Seq<char>, now: u64)
    requires
        active(a),
    ensures
        parsed(text) != Some(CommandView::Quit) ==> !ran(a, text, now).0.quit_armed,
        parsed(text) == Some(CommandView::Quit) && !a.quit_armed ==> ran(a, text, now).0.quit_armed
            && ran(a, text, now).1.len() == 1,
        parsed(text) == Some(CommandView::Quit) && a.quit_armed ==> ran(a, text, now).1[1]
            == EffectView::RequestShutdown,
{
    reveal(ran);
    reveal(ran_quit);
    reveal(ran_new);
    reveal(ran_compact);
    reveal(ran_image);
    reveal(replies);
    reveal(asks);
}

/// Flipping the level twice restores it.
pub proof fn relevel_is_an_involution(a: AppView)
    requires
        a.status.level == a.level,
    ensures
        releveled(releveled(a)) == a,
{
}

/// Whether a command was only answered: with one line of that kind behind its
/// echo, and without asking anyone for anything.
pub open spec fn only_answered(
    effects: Seq<EffectView>,
    text: Seq<char>,
    kind: LineKind,
) -> bool {
    &&& effects.len() == 1
    &&& effects[0] is Append
    &&& (effects[0]->Append_0).len() == 2
    &&& (effects[0]->Append_0)[0] == plain_line(LineKind::Meta, text)
    &&& (effects[0]->Append_0)[1].kind == kind
}

/// Whether a command was echoed and asks for one thing.
pub open spec fn echoed_and_asks(
    effects: Seq<EffectView>,
    text: Seq<char>,
    effect: EffectView,
) -> bool {
    &&& effects.len() == 2
    &&& effects[0] == EffectView::Append(seq![plain_line(LineKind::Meta, text)])
    &&& effects[1] == effect
}

/// Each command asks the host for its own thing, with its own argument.
pub proof fn commands_ask_for_their_thing(a: AppView, text: Seq<char>, now: u64)
    ensures
        ({
            let (next, effects) = ran(a, text, now);
            &&& parsed(text) == Some(CommandView::Sessions) ==> echoed_and_asks(
                effects,
                text,
                EffectView::Host(RequestView::OpenSessions),
            )
            &&& parsed(text) == Some(CommandView::Status) ==> echoed_and_asks(
                effects,
                text,
                EffectView::Host(RequestView::ShowStatus),
            )
            &&& parsed(text) == Some(CommandView::Config) ==> echoed_and_asks(
                effects,
                text,
                EffectView::Host(RequestView::ShowConfig),
            ) && next.expect_config_listing
            &&& parsed(text) == Some(CommandView::New) && !active(a) ==> echoed_and_asks(
                effects,
                text,
                EffectView::Host(RequestView::NewSession),
            ) && next.session_load_intent == Some(SessionLoadIntent::New)
            &&& parsed(text) == Some(CommandView::Compact) && !active(a) ==> echoed_and_asks(
                effects,
                text,
                EffectView::StartCompaction,
            ) && next.manual_compacting && next.status.compacting && next.run_state.phase == Some(
                Phase::Compacting,
            )
            &&& parsed(text) == Some(CommandView::Quit) && !active(a) ==> echoed_and_asks(
                effects,
                text,
                EffectView::Quit,
            )
        }),
{
    reveal(ran);
    reveal(ran_new);
    reveal(ran_compact);
    reveal(ran_quit);
    reveal(asks);
}

/// What stands behind a command is what it asks for.
pub proof fn arguments_are_handed_on(a: AppView, text: Seq<char>, value: Seq<char>, now: u64)
    ensures
        ({
            let (next, effects) = ran(a, text, now);
            &&& parsed(text) == Some(CommandView::Rename { title: Some(value) }) ==> echoed_and_asks(
                effects,
                text,
                EffectView::Host(RequestView::RenameSession { title: value }),
            )
            &&& parsed(text) == Some(CommandView::Model { name: Some(value) }) ==> echoed_and_asks(
                effects,
                text,
                EffectView::Host(RequestView::RebuildModel { name: value, effort: None }),
            ) && next.pending_model_switch
            &&& parsed(text) == Some(CommandView::Reasoning { level: Some(value) }) && effort_for(
                value,
            ) is Some ==> echoed_and_asks(
                effects,
                text,
                EffectView::Host(RequestView::SetReasoning(effort_for(value).unwrap())),
            )
            &&& parsed(text) == Some(CommandView::Image { path: Some(value) }) ==> only_answered(
                effects,
                text,
                LineKind::Meta,
            ) && next.attachments == a.attachments.push(AttachmentView::Path(value))
        }),
{
    reveal(ran);
    reveal(ran_reasoning);
    reveal(ran_image);
    reveal(asks);
    reveal(replies);
}

/// A command that cannot be carried out is answered by an error and changes
/// nothing but the armed exit: one that is not known, lacks its argument, names
/// no level, or wants an idle agent while it is active.
pub proof fn refused_commands_change_nothing(a: AppView, text: Seq<char>, now: u64)
    requires
        match parsed(text) {
            None => true,
            Some(CommandView::Rename { title }) => title is None,
            Some(CommandView::Model { name }) => name is None,
            Some(CommandView::Image { path }) => path is None,
            Some(CommandView::Reasoning { level }) => level is None || effort_for(level.unwrap())
                is None,
            Some(CommandView::New) | Some(CommandView::Compact) => active(a),
            _ => false,
        },
    ensures
        only_answered(ran(a, text, now).1, text, LineKind::Error),
        ran(a, text, now).0 == (AppView { quit_armed: false, ..a }),
{
    reveal(ran);
    reveal(ran_new);
    reveal(ran_reasoning);
    reveal(ran_compact);
    reveal(ran_image);
    reveal(replies);
}

/// The help shows every row of the help text behind the echo.
pub proof fn help_is_shown_in_full(a: AppView, text: Seq<char>, now: u64)
    requires
        parsed(text) == Some(CommandView::Help),
    ensures
        ({
            let effects = ran(a, text, now).1;
            &&& effects.len() == 1
            &&& effects[0] is Append
            &&& (effects[0]->Append_0).len() == 1 + help().len()
            &&& forall|i: int|
                0 <= i < help().len() ==> #[trigger] (effects[0]->Append_0)[1 + i] == plain_line(
                    LineKind::Meta,
                    help()[i],
                )
        }),
{
    reveal(ran);
    reveal(help_reply);
}

/// The level goes from one tier to the other, everywhere it is kept.
pub proof fn the_level_goes_to_the_other_tier(a: AppView)
    ensures
        a.level == InfoLevel::Default ==> releveled(a).level == InfoLevel::Verbose,
        a.level == InfoLevel::Verbose ==> releveled(a).level == InfoLevel::Default,
        releveled(a).status.level == releveled(a).level,
{
}

/// In the menu the highlight moves candidate by candidate and stops at both ends.
pub proof fn the_highlight_moves_one_by_one(a: AppView, menu: MenuView)
    requires
        a.completion == Some(menu),
        menu.selected < menu.candidates.len(),
    ensures
        menu_moved(a, true).completion == Some(
            MenuView {
                selected: if menu.selected == 0 {
                    0
                } else {
                    (menu.selected - 1) as usize
                },
                ..menu
            },
        ),
        menu_moved(a, false).completion == Some(
            MenuView {
                selected: if menu.selected + 1 == menu.candidates.len() {
                    menu.selected
                } else {
                    (menu.selected + 1) as usize
                },
                ..menu
            },
        ),
        menu_moved(a, true).input == a.input,
        menu_moved(a, false).input == a.input,
{
}

/// Running the highlighted candidate is running what it would have been typed as:
/// its name behind a slash, which the recall keeps.
pub proof fn candidates_run_as_typed(a: AppView, menu: MenuView, now: u64)
    requires
        a.completion == Some(menu),
        menu.selected < menu.candidates.len(),
    ensures
        ({
            let text = "/"@ + menu.candidates[menu.selected as int];
            let (next, effects) = menu_executed(a, now);
            &&& effects == ran(
                AppView {
                    input: blank(),
                    completion: None,
                    history: HistoryView {
                        entries: a.history.entries.push(text),
                        cursor: None,
                        stash: None,
                    },
                    ..bumped(a)
                },
                text,
                now,
            ).1
            &&& next.input == blank()
        }),
{
    let text = "/"@ + highlighted(menu);
    commands_never_submit(
        AppView {
            input: blank(),
            completion: None,
            history: remembered(a.history, text),
            ..bumped(a)
        },
        text,
        now,
    );
}

} // verus!
