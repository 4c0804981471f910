//! Slash-command vocabulary: table, parsing, and prefix completion.
//!
//! Parsing is pure: a `/` prefix never reaches the model, and an unrecognised
//! word yields one error line.

use vstd::prelude::*;

use super::frontend::FrontendReasoningEffort;
use crate::strs;
use crate::strs::{ascii_lower, begins, is_white, repeated, trim};

verus! {

/// One command's user-facing description, shown by `/help` and the completion
/// menu.
#[derive(Clone, Copy, Debug, PartialEq, Eq)]
pub struct CommandSpec {
    pub name: &'static str,
    pub usage: &'static str,
    pub summary: &'static str,
}

/// A [`CommandSpec`] as a mathematical value.
pub struct EntryView {
    pub name: Seq<char>,
    pub usage: Seq<char>,
    pub summary: Seq<char>,
}

impl DeepView for CommandSpec {
    type V = EntryView;

    open spec fn deep_view(&self) -> EntryView {
        EntryView { name: self.name@, usage: self.usage@, summary: self.summary@ }
    }
}

pub open spec fn entry(name: Seq<char>, usage: Seq<char>, summary: Seq<char>) -> EntryView {
    EntryView { name, usage, summary }
}

/// The command table.
pub open spec fn table() -> Seq<EntryView> {
    seq![
        entry("help"@, "/help"@, "commands and key bindings"@),
        entry("new"@, "/new"@, "start a new session"@),
        entry("sessions"@, "/sessions"@, "pick a session to continue"@),
        entry("rename"@, "/rename <title>"@, "rename the current session"@),
        entry("model"@, "/model <name>"@, "switch the model for later operations"@),
        entry("reasoning"@, "/reasoning <level>"@, "reasoning effort, from the next turn on"@),
        entry("compact"@, "/compact"@, "summarize older context (idle only)"@),
        entry("image"@, "/image <path>"@, "attach an image to the next message"@),
        entry("verbose"@, "/verbose"@, "toggle the information tier (same as Ctrl+O)"@),
        entry("status"@, "/status"@, "session, model, usage and the tool lineup"@),
        entry("config"@, "/config"@, "effective configuration and its source layers"@),
        entry("quit"@, "/quit"@, "leave the session"@),
    ]
}

/// The command table.
pub fn commands() -> (all: Vec<CommandSpec>)
    ensures
        all.deep_view() == table(),
{
    let all = vec![
        CommandSpec { name: "help", usage: "/help", summary: "commands and key bindings" },
        CommandSpec { name: "new", usage: "/new", summary: "start a new session" },
        CommandSpec {
            name: "sessions",
            usage: "/sessions",
            summary: "pick a session to continue",
        },
        CommandSpec {
            name: "rename",
            usage: "/rename <title>",
            summary: "rename the current session",
        },
        CommandSpec {
            name: "model",
            usage: "/model <name>",
            summary: "switch the model for later operations",
        },
        CommandSpec {
            name: "reasoning",
            usage: "/reasoning <level>",
            summary: "reasoning effort, from the next turn on",
        },
        CommandSpec {
            name: "compact",
            usage: "/compact",
            summary: "summarize older context (idle only)",
        },
        CommandSpec {
            name: "image",
            usage: "/image <path>",
            summary: "attach an image to the next message",
        },
        CommandSpec {
            name: "verbose",
            usage: "/verbose",
            summary: "toggle the information tier (same as Ctrl+O)",
        },
        CommandSpec {
            name: "status",
            usage: "/status",
            summary: "session, model, usage and the tool lineup",
        },
        CommandSpec {
            name: "config",
            usage: "/config",
            summary: "effective configuration and its source layers",
        },
        CommandSpec { name: "quit", usage: "/quit", summary: "leave the session" },
    ];
    proof {
        assert(all.deep_view() =~= table());
    }
    all
}

/// The reasoning levels `/reasoning` accepts, for error messages.
pub const REASONING_LEVELS: &'static str = "minimal | low | medium | high | xhigh | max";

/// One parsed command. Argument-taking commands keep the raw argument so the
/// state machine can report a usage error itself.
#[derive(Clone, Debug, PartialEq, Eq)]
pub enum Command {
    Help,
    New,
    Sessions,
    Rename { title: Option<String> },
    Model { name: Option<String> },
    Reasoning { level: Option<String> },
    Compact,
    Image { path: Option<String> },
    Verbose,
    Status,
    Config,
    Quit,
}

/// A [`Command`] as a mathematical value.
pub enum CommandView {
    Help,
    New,
    Sessions,
    Rename { title: Option<Seq<char>> },
    Model { name: Option<Seq<char>> },
    Reasoning { level: Option<Seq<char>> },
    Compact,
    Image { path: Option<Seq<char>> },
    Verbose,
    Status,
    Config,
    Quit,
}

impl DeepView for Command {
    type V = CommandView;

    open spec fn deep_view(&self) -> CommandView {
        match self {
            Command::Help => CommandView::Help,
            Command::New => CommandView::New,
            Command::Sessions => CommandView::Sessions,
            Command::Rename { title } => CommandView::Rename { title: title.deep_view() },
            Command::Model { name } => CommandView::Model { name: name.deep_view() },
            Command::Reasoning { level } => CommandView::Reasoning { level: level.deep_view() },
            Command::Compact => CommandView::Compact,
            Command::Image { path } => CommandView::Image { path: path.deep_view() },
            Command::Verbose => CommandView::Verbose,
            Command::Status => CommandView::Status,
            Command::Config => CommandView::Config,
            Command::Quit => CommandView::Quit,
        }
    }
}

/// A `/word` that is not in the table.
#[derive(Clone, Debug, PartialEq, Eq)]
pub struct UnknownCommand {
    pub word: String,
}

impl UnknownCommand {
    /// The word as typed, without the slash.
    pub fn word(&self) -> (word: &str)
        ensures
            word@ == self.word@,
    {
        self.word.as_str()
    }
}

// ---------------------------------------------------------------------------
// Parsing
// ---------------------------------------------------------------------------

/// The index of the first white-space character, or the length.
pub open spec fn first_white(text: Seq<char>) -> nat
    decreases text.len(),
{
    if text.len() == 0 || is_white(text[0]) {
        0
    } else {
        1 + first_white(text.skip(1))
    }
}

/// The line without its leading slash.
pub open spec fn unslashed(input: Seq<char>) -> Seq<char> {
    if begins(input, "/"@) {
        input.skip(1)
    } else {
        input
    }
}

/// The command word of a line: everything up to the first white space.
pub open spec fn command_word(input: Seq<char>) -> Seq<char> {
    let body = unslashed(input);
    body.take(first_white(body) as int)
}

/// The argument of a line: everything behind the first white space, trimmed;
/// `None` where nothing is left of it.
pub open spec fn argument(input: Seq<char>) -> Option<Seq<char>> {
    let body = unslashed(input);
    let at = first_white(body);
    if at >= body.len() {
        None
    } else {
        let rest = trim(body.skip(at as int + 1));
        if rest.len() == 0 {
            None
        } else {
            Some(rest)
        }
    }
}

/// The command a word stands for, with its argument.
pub open spec fn command_for(word: Seq<char>, argument: Option<Seq<char>>) -> Option<CommandView> {
    if word == "help"@ {
        Some(CommandView::Help)
    } else if word == "new"@ {
        Some(CommandView::New)
    } else if word == "sessions"@ {
        Some(CommandView::Sessions)
    } else if word == "rename"@ {
        Some(CommandView::Rename { title: argument })
    } else if word == "model"@ {
        Some(CommandView::Model { name: argument })
    } else if word == "reasoning"@ {
        Some(CommandView::Reasoning { level: argument })
    } else if word == "compact"@ {
        Some(CommandView::Compact)
    } else if word == "image"@ {
        Some(CommandView::Image { path: argument })
    } else if word == "verbose"@ {
        Some(CommandView::Verbose)
    } else if word == "status"@ {
        Some(CommandView::Status)
    } else if word == "config"@ {
        Some(CommandView::Config)
    } else if word == "quit"@ {
        Some(CommandView::Quit)
    } else {
        None
    }
}

/// The command of a line; `None` for a word that is not in the table.
#[verifier::opaque]
pub open spec fn parsed(input: Seq<char>) -> Option<CommandView> {
    command_for(command_word(input), argument(input))
}

fn find_white(chars: &Vec<char>) -> (at: usize)
    ensures
        at == first_white(chars@),
        at <= chars.len(),
        at < chars.len() ==> is_white(chars@[at as int]),
{
    let mut i: usize = 0;
    proof {
        assert(chars@.skip(0) =~= chars@);
    }
    while i < chars.len() && !strs::white(chars[i])
        invariant
            i <= chars.len(),
            first_white(chars@) == i + first_white(chars@.skip(i as int)),
        decreases chars.len() - i,
    {
        proof {
            assert(chars@.skip(i as int).skip(1) =~= chars@.skip(i as int + 1));
        }
        i += 1;
    }
    i
}

/// Parses one command line. `input` carries the leading `/`; everything after
/// the first whitespace is the argument, trimmed and verbatim otherwise.
pub fn parse(input: &str) -> (result: Result<Command, UnknownCommand>)
    ensures
        match result {
            Ok(command) => parsed(input@) == Some(command.deep_view()),
            Err(unknown) => parsed(input@) is None && unknown.word@ == command_word(input@),
        },
{
    proof {
        reveal(parsed);
    }
    proof {
        reveal_strlit("/");
    }
    let body = match strs::strip_prefix(input, "/") {
        Some(rest) => rest,
        None => input.to_owned(),
    };
    let chars = strs::chars_of(body.as_str());
    let at = find_white(&chars);
    let word = strs::string_of(&chars, 0, at);
    proof {
        assert(body@ == unslashed(input@));
        assert(word@ =~= command_word(input@));
    }
    let mut argument: Option<String> = None;
    if at < chars.len() {
        let rest = strs::string_of(&chars, at + 1, chars.len());
        proof {
            assert(rest@ =~= body@.skip(at + 1));
        }
        let trimmed = strs::trimmed(rest.as_str());
        if !trimmed.as_str().is_empty() {
            argument = Some(trimmed);
        }
    }
    assert(argument.deep_view() == self::argument(input@));
    let name = word.as_str();
    let command = if strs::same(name, "help") {
        Command::Help
    } else if strs::same(name, "new") {
        Command::New
    } else if strs::same(name, "sessions") {
        Command::Sessions
    } else if strs::same(name, "rename") {
        Command::Rename { title: argument }
    } else if strs::same(name, "model") {
        Command::Model { name: argument }
    } else if strs::same(name, "reasoning") {
        Command::Reasoning { level: argument }
    } else if strs::same(name, "compact") {
        Command::Compact
    } else if strs::same(name, "image") {
        Command::Image { path: argument }
    } else if strs::same(name, "verbose") {
        Command::Verbose
    } else if strs::same(name, "status") {
        Command::Status
    } else if strs::same(name, "config") {
        Command::Config
    } else if strs::same(name, "quit") {
        Command::Quit
    } else {
        return Err(UnknownCommand { word });
    };
    Ok(command)
}

// ---------------------------------------------------------------------------
// Completion
// ---------------------------------------------------------------------------

/// The entries whose name begins with `word`, in table order.
pub open spec fn matching(entries: Seq<EntryView>, word: Seq<char>) -> Seq<EntryView>
    decreases entries.len(),
{
    if entries.len() == 0 {
        Seq::empty()
    } else {
        let before = matching(entries.drop_last(), word);
        if begins(entries.last().name, word) {
            before.push(entries.last())
        } else {
            before
        }
    }
}

/// The completions of a draft: none unless it is a slash and one unfinished
/// word.
#[verifier::opaque]
pub open spec fn completions(input: Seq<char>) -> Seq<EntryView> {
    if !begins(input, "/"@) || first_white(input.skip(1)) < input.skip(1).len() {
        Seq::empty()
    } else {
        matching(table(), input.skip(1))
    }
}

/// Completion candidates for the command word being typed. Completion applies
/// to the word only: once the line has an argument there is nothing to complete.
pub fn candidates(input: &str) -> (found: Vec<CommandSpec>)
    ensures
        found.deep_view() == completions(input@),
{
    proof {
        reveal(completions);
    }
    let mut found: Vec<CommandSpec> = Vec::new();
    proof {
        reveal_strlit("/");
        assert(found.deep_view() =~= Seq::<EntryView>::empty());
    }
    let word = match strs::strip_prefix(input, "/") {
        Some(word) => word,
        None => return found,
    };
    let chars = strs::chars_of(word.as_str());
    if find_white(&chars) < chars.len() {
        return found;
    }
    let all = commands();
    let ghost entries = all.deep_view();
    let mut i: usize = 0;
    while i < all.len()
        invariant
            i <= all.len(),
            entries == all.deep_view(),
            found.deep_view() == matching(entries.take(i as int), word@),
        decreases all.len() - i,
    {
        let ghost before = found.deep_view();
        proof {
            assert(entries.take(i as int + 1).drop_last() =~= entries.take(i as int));
            assert(entries.take(i as int + 1).last() == entries[i as int]);
        }
        if strs::starts_with(all[i].name, word.as_str()) {
            let item = all[i];
            found.push(item);
            proof {
                assert(found.deep_view() =~= before.push(item.deep_view()));
            }
        }
        i += 1;
    }
    proof {
        assert(entries.take(i as int) =~= entries);
    }
    found
}

/// The index of the entry of that name, or the number of entries.
pub open spec fn index_of(entries: Seq<EntryView>, name: Seq<char>) -> nat
    decreases entries.len(),
{
    if entries.len() == 0 || entries[0].name == name {
        0
    } else {
        1 + index_of(entries.skip(1), name)
    }
}

/// Whether a name is in the table.
pub open spec fn in_table(name: Seq<char>) -> bool {
    index_of(table(), name) < table().len()
}

/// The table entry for a candidate name.
pub fn spec(name: &str) -> (found: CommandSpec)
    requires
        in_table(name@),
    ensures
        found.deep_view() == table()[index_of(table(), name@) as int],
        found.name@ == name@,
{
    let all = commands();
    let ghost entries = all.deep_view();
    let mut i: usize = 0;
    proof {
        assert(entries.skip(0) =~= entries);
    }
    while i < all.len()
        invariant
            i <= all.len(),
            entries == all.deep_view(),
            entries == table(),
            in_table(name@),
            index_of(entries, name@) == i + index_of(entries.skip(i as int), name@),
        decreases all.len() - i,
    {
        proof {
            assert(entries.skip(i as int)[0] == entries[i as int]);
            assert(entries.skip(i as int).skip(1) =~= entries.skip(i as int + 1));
        }
        if strs::same(all[i].name, name) {
            return all[i];
        }
        i += 1;
    }
    proof {
        assert(entries.skip(i as int) =~= Seq::<EntryView>::empty());
        assert(false);
    }
    CommandSpec { name: "", usage: "", summary: "" }
}

// ---------------------------------------------------------------------------
// Reasoning levels
// ---------------------------------------------------------------------------

/// A typed level as the vocabulary writes it: trimmed, lower case, dashes for
/// underscores.
pub open spec fn level_word(level: Seq<char>) -> Seq<char> {
    trim(level).map_values(
        |c: char|
            if ascii_lower(c) == '_' {
                '-'
            } else {
                ascii_lower(c)
            },
    )
}

/// The display name of a reasoning level.
pub open spec fn effort_name(effort: FrontendReasoningEffort) -> Seq<char> {
    match effort {
        FrontendReasoningEffort::Minimal => "minimal"@,
        FrontendReasoningEffort::Low => "low"@,
        FrontendReasoningEffort::Medium => "medium"@,
        FrontendReasoningEffort::High => "high"@,
        FrontendReasoningEffort::Xhigh => "xhigh"@,
        FrontendReasoningEffort::Max => "max"@,
    }
}

/// The level a typed word names.
#[verifier::opaque]
pub open spec fn effort_for(level: Seq<char>) -> Option<FrontendReasoningEffort> {
    let word = level_word(level);
    if word == "minimal"@ {
        Some(FrontendReasoningEffort::Minimal)
    } else if word == "low"@ {
        Some(FrontendReasoningEffort::Low)
    } else if word == "medium"@ {
        Some(FrontendReasoningEffort::Medium)
    } else if word == "high"@ {
        Some(FrontendReasoningEffort::High)
    } else if word == "xhigh"@ {
        Some(FrontendReasoningEffort::Xhigh)
    } else if word == "max"@ {
        Some(FrontendReasoningEffort::Max)
    } else {
        None
    }
}

/// Maps a typed level onto the frontend reasoning vocabulary.
pub fn parse_reasoning(level: &str) -> (effort: Option<FrontendReasoningEffort>)
    ensures
        effort == effort_for(level@),
{
    proof {
        reveal(effort_for);
    }
    let trimmed = strs::trimmed(level);
    let chars = strs::chars_of(trimmed.as_str());
    let mut word = String::new();
    let mut i: usize = 0;
    while i < chars.len()
        invariant
            i <= chars.len(),
            chars@ == trim(level@),
            word@ == level_word(level@).take(i as int),
        decreases chars.len() - i,
    {
        let c = strs::lower(chars[i]);
        word.push(
            if c == '_' {
                '-'
            } else {
                c
            },
        );
        i += 1;
        proof {
            assert(word@ =~= level_word(level@).take(i as int));
        }
    }
    proof {
        assert(word@ =~= level_word(level@));
    }
    let word = word.as_str();
    if strs::same(word, "minimal") {
        Some(FrontendReasoningEffort::Minimal)
    } else if strs::same(word, "low") {
        Some(FrontendReasoningEffort::Low)
    } else if strs::same(word, "medium") {
        Some(FrontendReasoningEffort::Medium)
    } else if strs::same(word, "high") {
        Some(FrontendReasoningEffort::High)
    } else if strs::same(word, "xhigh") {
        Some(FrontendReasoningEffort::Xhigh)
    } else if strs::same(word, "max") {
        Some(FrontendReasoningEffort::Max)
    } else {
        None
    }
}

/// The display name of a reasoning level, for echoes.
pub fn reasoning_name(effort: FrontendReasoningEffort) -> (name: &'static str)
    ensures
        name@ == effort_name(effort),
{
    match effort {
        FrontendReasoningEffort::Minimal => "minimal",
        FrontendReasoningEffort::Low => "low",
        FrontendReasoningEffort::Medium => "medium",
        FrontendReasoningEffort::High => "high",
        FrontendReasoningEffort::Xhigh => "xhigh",
        FrontendReasoningEffort::Max => "max",
    }
}

// ---------------------------------------------------------------------------
// Help
// ---------------------------------------------------------------------------

/// The length of the longest usage.
pub open spec fn usage_len(entries: Seq<EntryView>) -> nat
    decreases entries.len(),
{
    if entries.len() == 0 {
        0
    } else {
        let before = usage_len(entries.drop_last());
        if entries.last().usage.len() > before {
            entries.last().usage.len()
        } else {
            before
        }
    }
}

/// The text filled up with blanks to `len` characters.
pub open spec fn left_aligned(text: Seq<char>, len: nat) -> Seq<char> {
    if text.len() >= len {
        text
    } else {
        text + repeated(' ', (len - text.len()) as nat)
    }
}

pub fn align_left(text: &str, len: usize) -> (result: String)
    ensures
        result@ == left_aligned(text@, len as nat),
{
    let mut result = text.to_owned();
    let used = strs::chars_of(text).len();
    if used < len {
        strs::push_repeated(&mut result, ' ', len - used);
    }
    result
}

/// The help row of one command.
pub open spec fn help_row(entry: EntryView, len: nat) -> Seq<char> {
    "  "@ + left_aligned(entry.usage, len) + "  "@ + entry.summary
}

/// The key bindings, one per row.
pub open spec fn key_hints() -> Seq<Seq<char>> {
    seq![
        "Enter     submit (queues while busy)"@,
        "Ctrl+J    newline (Shift+Enter where supported)"@,
        "Esc       cancel the running turn"@,
        "Ctrl+C    copy selection, or clear / cancel / twice to exit"@,
        "Ctrl+D    exit on an empty prompt"@,
        "Ctrl+O    detail tier   ·   Ctrl+L redraw"@,
        "Tab       complete a command   ·   Up/Down input history"@,
        "scroll    wheel or PageUp/Dn"@,
        "Home/End  line start/end, or transcript top/bottom"@,
    ]
}

/// The `/help` body: the command table plus the key bindings.
#[verifier::opaque]
pub open spec fn help() -> Seq<Seq<char>> {
    seq!["commands:"@] + table().map_values(|e: EntryView| help_row(e, usage_len(table()))) + seq![
        "keys:"@,
    ] + key_hints().map_values(|hint: Seq<char>| "  "@ + hint)
}

/// The longest usage among the entries.
pub fn usage_width(all: &Vec<CommandSpec>) -> (len: usize)
    ensures
        len == usage_len(all.deep_view()),
{
    let ghost entries = all.deep_view();
    let mut len: usize = 0;
    let mut i: usize = 0;
    while i < all.len()
        invariant
            i <= all.len(),
            entries == all.deep_view(),
            len == usage_len(entries.take(i as int)),
        decreases all.len() - i,
    {
        proof {
            assert(entries.take(i as int + 1).drop_last() =~= entries.take(i as int));
        }
        let usage = strs::chars_of(all[i].usage).len();
        if usage > len {
            len = usage;
        }
        i += 1;
    }
    proof {
        assert(entries.take(i as int) =~= entries);
    }
    len
}

/// The `/help` body: the command table plus the key bindings.
pub fn help_lines() -> (lines: Vec<String>)
    ensures
        lines.deep_view() == help(),
{
    proof {
        reveal(help);
    }
    let all = commands();
    let ghost entries = all.deep_view();
    let width = usage_width(&all);
    let mut lines: Vec<String> = Vec::new();
    lines.push("commands:".to_owned());
    let mut i: usize = 0;
    while i < all.len()
        invariant
            i <= all.len(),
            entries == all.deep_view(),
            lines.len() == i + 1,
            lines@[0]@ == "commands:"@,
            forall|k: int|
                1 <= k <= i ==> (#[trigger] lines@[k])@ == help_row(entries[k - 1], width as nat),
        decreases all.len() - i,
    {
        let mut row = strs::cat("  ", align_left(all[i].usage, width).as_str());
        row.push_str("  ");
        row.push_str(all[i].summary);
        lines.push(row);
        i += 1;
    }
    let ghost listed = lines@;
    lines.push("keys:".to_owned());
    let hints = vec![
        "Enter     submit (queues while busy)",
        "Ctrl+J    newline (Shift+Enter where supported)",
        "Esc       cancel the running turn",
        "Ctrl+C    copy selection, or clear / cancel / twice to exit",
        "Ctrl+D    exit on an empty prompt",
        "Ctrl+O    detail tier   ·   Ctrl+L redraw",
        "Tab       complete a command   ·   Up/Down input history",
        "scroll    wheel or PageUp/Dn",
        "Home/End  line start/end, or transcript top/bottom",
    ];
    let ghost keyed = lines@;
    let mut j: usize = 0;
    while j < hints.len()
        invariant
            j <= hints.len(),
            lines.len() == keyed.len() + j,
            forall|k: int| 0 <= k < keyed.len() ==> #[trigger] lines@[k] == keyed[k],
            forall|k: int|
                keyed.len() <= k < lines.len() ==> (#[trigger] lines@[k])@ == "  "@ + hints@[k
                    - keyed.len()]@,
        decreases hints.len() - j,
    {
        lines.push(strs::cat("  ", hints[j]));
        j += 1;
    }
    proof {
        assert(hints@.len() == key_hints().len());
        assert(lines.deep_view().len() == help().len());
        assert forall|k: int| 0 <= k < help().len() implies lines.deep_view()[k] == help()[k] by {
            if k < keyed.len() {
                assert(lines@[k] == keyed[k]);
                if k < listed.len() {
                    assert(keyed[k] == listed[k]);
                }
            } else {
                assert(lines@[k]@ == "  "@ + hints@[k - keyed.len()]@);
            }
        }
        assert(lines.deep_view() =~= help());
    }
    lines
}

// ---------------------------------------------------------------------------
// Laws
// ---------------------------------------------------------------------------

proof fn first_white_of_word(text: Seq<char>)
    requires
        forall|i: int| 0 <= i < text.len() ==> !is_white(#[trigger] text[i]),
    ensures
        first_white(text) == text.len(),
    decreases text.len(),
{
    if text.len() > 0 {
        let rest = text.skip(1);
        assert forall|i: int| 0 <= i < rest.len() implies !is_white(#[trigger] rest[i]) by {
            assert(rest[i] == text[i + 1]);
        }
        first_white_of_word(rest);
        assert(!is_white(text[0]));
    }
}

/// No name of the table holds white space.
proof fn names_are_words(i: int)
    requires
        0 <= i < table().len(),
    ensures
        forall|k: int|
            0 <= k < table()[i].name.len() ==> !is_white(#[trigger] table()[i].name[k]),
{
    reveal_strlit("help");
    reveal_strlit("new");
    reveal_strlit("sessions");
    reveal_strlit("rename");
    reveal_strlit("model");
    reveal_strlit("reasoning");
    reveal_strlit("compact");
    reveal_strlit("image");
    reveal_strlit("verbose");
    reveal_strlit("status");
    reveal_strlit("config");
    reveal_strlit("quit");
}

/// Every command of the table parses: a slash and its name is that command
/// without an argument.
pub proof fn every_command_parses(i: int)
    requires
        0 <= i < table().len(),
    ensures
        parsed("/"@ + table()[i].name) is Some,
        command_word("/"@ + table()[i].name) == table()[i].name,
        argument("/"@ + table()[i].name) is None,
{
    reveal(parsed);
    reveal_strlit("/");
    names_are_words(i);
    let name = table()[i].name;
    let input = "/"@ + name;
    assert(input.take(1) =~= "/"@);
    assert(input.skip(1) =~= name);
    first_white_of_word(name);
    assert(name.take(name.len() as int) =~= name);
}

/// Reading a level's own name gives the level back.
pub proof fn names_parse_back(effort: FrontendReasoningEffort)
    ensures
        effort_for(effort_name(effort)) == Some(effort),
{
    reveal(effort_for);
    reveal_strlit("minimal");
    reveal_strlit("low");
    reveal_strlit("medium");
    reveal_strlit("high");
    reveal_strlit("xhigh");
    reveal_strlit("max");
    let name = effort_name(effort);
    assert(strs::leading_white(name) == 0);
    assert(name.skip(0) =~= name);
    assert(trim(name) =~= name);
    assert(level_word(name) =~= name);
    assert("minimal"@.len() == 7 && "low"@.len() == 3 && "medium"@.len() == 6 && "high"@.len() == 4
        && "xhigh"@.len() == 5 && "max"@.len() == 3);
    assert("low"@[0] == 'l' && "max"@[0] == 'm');
}

/// Candidates come from the table, so each of them has an entry.
pub proof fn candidates_are_in_the_table(entries: Seq<EntryView>, word: Seq<char>, k: int)
    requires
        0 <= k < matching(entries, word).len(),
    ensures
        entries.contains(matching(entries, word)[k]),
        begins(matching(entries, word)[k].name, word),
    decreases entries.len(),
{
    let rest = entries.drop_last();
    let before = matching(rest, word);
    if k < before.len() {
        candidates_are_in_the_table(rest, word, k);
        let j = choose|j: int| 0 <= j < rest.len() && rest[j] == before[k];
        assert(entries[j] == before[k]);
    } else {
        assert(entries[entries.len() - 1] == matching(entries, word)[k]);
    }
}

/// An entry that is there is found by its name.
pub proof fn present_names_are_found(entries: Seq<EntryView>, at: int)
    requires
        0 <= at < entries.len(),
    ensures
        index_of(entries, entries[at].name) < entries.len(),
        entries[index_of(entries, entries[at].name) as int].name == entries[at].name,
    decreases entries.len(),
{
    let name = entries[at].name;
    if entries[0].name != name {
        assert(entries.skip(1)[at - 1] == entries[at]);
        present_names_are_found(entries.skip(1), at - 1);
        let k = index_of(entries.skip(1), name) as int;
        assert(entries.skip(1)[k] == entries[k + 1]);
    }
}

proof fn word_ends(word: Seq<char>, rest: Seq<char>)
    requires
        forall|i: int| 0 <= i < word.len() ==> !is_white(#[trigger] word[i]),
        rest.len() > 0 ==> is_white(rest[0]),
    ensures
        first_white(word + rest) == word.len(),
    decreases word.len(),
{
    let text = word + rest;
    if word.len() == 0 {
        assert(text =~= rest);
    } else {
        assert(text[0] == word[0]);
        assert(text.skip(1) =~= word.skip(1) + rest);
        assert forall|i: int| 0 <= i < word.skip(1).len() implies !is_white(
            #[trigger] word.skip(1)[i],
        ) by {
            assert(word.skip(1)[i] == word[i + 1]);
        }
        word_ends(word.skip(1), rest);
    }
}

/// A command line is a slash, a word, and behind white space an argument: the
/// word is what stands before the first white space, the argument what is left
/// of the rest without white space around it.
pub proof fn arguments_stand_behind_the_word(
    word: Seq<char>,
    before: Seq<char>,
    rest: Seq<char>,
    after: Seq<char>,
)
    requires
        forall|i: int| 0 <= i < word.len() ==> !is_white(#[trigger] word[i]),
        before.len() > 0,
        forall|i: int| 0 <= i < before.len() ==> is_white(#[trigger] before[i]),
        forall|i: int| 0 <= i < after.len() ==> is_white(#[trigger] after[i]),
        rest.len() > 0 ==> !is_white(rest[0]) && !is_white(rest.last()),
    ensures
        parsed("/"@ + word + (before + rest + after)) == command_for(
            word,
            if rest.len() == 0 {
                None
            } else {
                Some(rest)
            },
        ),
        parsed("/"@ + word) == command_for(word, None),
{
    reveal(parsed);
    reveal_strlit("/");
    let tail = before + rest + after;
    let input = "/"@ + word + tail;
    assert(input.subrange(0, 1) =~= "/"@);
    assert(input.take(1) =~= "/"@);
    let body = word + tail;
    assert(input.skip(1) =~= body);
    assert(tail[0] == before[0]);
    word_ends(word, tail);
    assert(body.take(word.len() as int) =~= word);
    let behind = body.skip(word.len() as int + 1);
    let fewer = before.skip(1);
    assert(behind =~= fewer + rest + after);
    assert forall|i: int| 0 <= i < fewer.len() implies is_white(#[trigger] fewer[i]) by {
        assert(fewer[i] == before[i + 1]);
    }
    strs::trimming_leaves_the_core(fewer, rest, after);
    let alone = "/"@ + word;
    assert(alone.take(1) =~= "/"@);
    assert(alone.skip(1) =~= word);
    word_ends(word, Seq::empty());
    assert(word + Seq::<char>::empty() =~= word);
    assert(word.take(word.len() as int) =~= word);
}

/// The argument reaches the commands that take one, and the others go without.
pub proof fn arguments_reach_their_command(argument: Option<Seq<char>>)
    ensures
        command_for("rename"@, argument) == Some(CommandView::Rename { title: argument }),
        command_for("model"@, argument) == Some(CommandView::Model { name: argument }),
        command_for("reasoning"@, argument) == Some(CommandView::Reasoning { level: argument }),
        command_for("image"@, argument) == Some(CommandView::Image { path: argument }),
        command_for("help"@, argument) == Some(CommandView::Help),
        command_for("new"@, argument) == Some(CommandView::New),
        command_for("sessions"@, argument) == Some(CommandView::Sessions),
        command_for("compact"@, argument) == Some(CommandView::Compact),
        command_for("verbose"@, argument) == Some(CommandView::Verbose),
        command_for("status"@, argument) == Some(CommandView::Status),
        command_for("config"@, argument) == Some(CommandView::Config),
        command_for("quit"@, argument) == Some(CommandView::Quit),
{
    reveal_strlit("rename");
    reveal_strlit("model");
    reveal_strlit("reasoning");
    reveal_strlit("image");
    reveal_strlit("help");
    reveal_strlit("new");
    reveal_strlit("sessions");
    reveal_strlit("compact");
    reveal_strlit("verbose");
    reveal_strlit("status");
    reveal_strlit("config");
    reveal_strlit("quit");
    assert("rename"@[0] == 'r' && "rename"@[2] == 'n');
    assert("reasoning"@[2] == 'a');
    assert("sessions"@[1] == 'e' && "status"@[1] == 't');
    assert("compact"@[2] == 'm' && "config"@[2] == 'n');
    assert("model"@[0] == 'm' && "image"@[0] == 'i' && "help"@[0] == 'h' && "new"@[0] == 'n');
    assert("verbose"@[0] == 'v' && "quit"@[0] == 'q');
    assert("sessions"@[0] == 's' && "compact"@[0] == 'c');
}

/// The commands offered for a slash and the beginning of a word are those whose
/// names begin so, in the table's order; none is offered behind white space or
/// without a slash.
pub proof fn the_menu_offers_what_begins_so(typed: Seq<char>, at: EntryView)
    ensures
        (forall|i: int| 0 <= i < typed.len() ==> !is_white(#[trigger] typed[i])) ==> (completions(
            "/"@ + typed,
        ).contains(at) <==> table().contains(at) && typed.is_prefix_of(at.name)),
        (exists|i: int| 0 <= i < typed.len() && is_white(#[trigger] typed[i])) ==> completions(
            "/"@ + typed,
        ).len() == 0,
        typed.len() == 0 || typed[0] != '/' ==> completions(typed).len() == 0,
{
    reveal(completions);
    reveal_strlit("/");
    let input = "/"@ + typed;
    assert(input.take(1) =~= "/"@);
    assert(input.skip(1) =~= typed);
    if forall|i: int| 0 <= i < typed.len() ==> !is_white(#[trigger] typed[i]) {
        word_ends(typed, Seq::empty());
        assert(typed + Seq::<char>::empty() =~= typed);
        matches_are_all(table(), typed, at);
    }
    if exists|i: int| 0 <= i < typed.len() && is_white(#[trigger] typed[i]) {
        let i = choose|i: int| 0 <= i < typed.len() && is_white(#[trigger] typed[i]);
        white_is_found(typed, i);
    }
    if begins(typed, "/"@) {
        assert(typed.take(1)[0] == "/"@[0]);
    }
}

proof fn white_is_found(text: Seq<char>, i: int)
    requires
        0 <= i < text.len(),
        is_white(text[i]),
    ensures
        first_white(text) < text.len(),
    decreases text.len(),
{
    if !is_white(text[0]) {
        assert(text.skip(1)[i - 1] == text[i]);
        white_is_found(text.skip(1), i - 1);
    }
}

proof fn matches_are_all(entries: Seq<EntryView>, word: Seq<char>, at: EntryView)
    ensures
        matching(entries, word).contains(at) <==> entries.contains(at) && word.is_prefix_of(at.name),
    decreases entries.len(),
{
    if entries.len() > 0 {
        let before = entries.drop_last();
        let last = entries.last();
        matches_are_all(before, word, at);
        let old = matching(before, word);
        assert(entries =~= before.push(last));
        assert(begins(last.name, word) <==> word.is_prefix_of(last.name));
        vstd::seq_lib::lemma_seq_contains_after_push(before, last, at);
        vstd::seq_lib::lemma_seq_contains_after_push(old, last, at);
    } else {
        assert(!entries.contains(at));
        assert(!matching(entries, word).contains(at));
    }
}

/// The menu keeps the order of the table.
pub proof fn the_menu_keeps_the_order(first: Seq<EntryView>, second: Seq<EntryView>, word: Seq<char>)
    ensures
        matching(first + second, word) == matching(first, word) + matching(second, word),
    decreases second.len(),
{
    if second.len() == 0 {
        assert(first + second =~= first);
        assert(matching(first, word) + matching(second, word) =~= matching(first, word));
    } else {
        assert((first + second).drop_last() =~= first + second.drop_last());
        the_menu_keeps_the_order(first, second.drop_last(), word);
        assert(matching(first + second, word) =~= matching(first, word) + matching(second, word));
    }
}

/// A reasoning level is known by its name, in either case and with white space
/// around it, and by no other name.
pub proof fn levels_are_read_without_case(
    before: Seq<char>,
    name: Seq<char>,
    after: Seq<char>,
    effort: FrontendReasoningEffort,
)
    requires
        forall|i: int| 0 <= i < before.len() ==> is_white(#[trigger] before[i]),
        forall|i: int| 0 <= i < after.len() ==> is_white(#[trigger] after[i]),
        name.len() > 0 ==> !is_white(name[0]) && !is_white(name.last()),
        forall|i: int| 0 <= i < name.len() ==> #[trigger] name[i] != '_',
    ensures
        effort_for(before + name + after) == Some(effort) <==> strs::lower_text(name)
            == effort_name(effort),
{
    reveal(effort_for);
    strs::trimming_leaves_the_core(before, name, after);
    let word = level_word(before + name + after);
    assert forall|i: int| 0 <= i < name.len() implies word[i] == strs::lower_text(name)[i] by {
        assert(name[i] != '_');
    }
    assert(word =~= strs::lower_text(name));
    reveal_strlit("minimal");
    reveal_strlit("low");
    reveal_strlit("medium");
    reveal_strlit("high");
    reveal_strlit("xhigh");
    reveal_strlit("max");
    assert("minimal"@.len() == 7 && "low"@.len() == 3 && "medium"@.len() == 6 && "high"@.len() == 4
        && "xhigh"@.len() == 5 && "max"@.len() == 3);
    assert("low"@[0] == 'l' && "max"@[0] == 'm');
}

/// The help lists every command once, in the table's order, with its usage and
/// its summary, and every key binding.
pub proof fn help_lists_every_command(i: int)
    requires
        0 <= i < table().len(),
    ensures
        help()[1 + i] == "  "@ + left_aligned(table()[i].usage, usage_len(table())) + "  "@
            + table()[i].summary,
        table()[i].usage.len() <= usage_len(table()),
        help().len() == 2 + table().len() + key_hints().len(),
        forall|k: int|
            0 <= k < key_hints().len() ==> #[trigger] help()[2 + table().len() + k] == "  "@
                + key_hints()[k],
{
    reveal(help);
    usages_fit(table(), i);
}

proof fn usages_fit(entries: Seq<EntryView>, i: int)
    requires
        0 <= i < entries.len(),
    ensures
        entries[i].usage.len() <= usage_len(entries),
    decreases entries.len(),
{
    if i < entries.len() - 1 {
        assert(entries.drop_last()[i] == entries[i]);
        usages_fit(entries.drop_last(), i);
    }
}

} // verus!
