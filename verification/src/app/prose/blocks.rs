//! Block classification of an answer: fences first, then headings and tables.

use vstd::prelude::*;

use super::style::{BlockRole, RoleView};
use crate::strs;
use crate::strs::{join, repeated, split_on, trim, trim_start};

verus! {

/// One logical line of an answer plus its classified role.
#[derive(Debug, PartialEq, Eq)]
pub struct LogicalLine {
    pub text: String,
    pub role: BlockRole,
}

/// A [`LogicalLine`] as a mathematical value.
pub struct LogicalView {
    pub text: Seq<char>,
    pub role: RoleView,
}

impl DeepView for LogicalLine {
    type V = LogicalView;

    open spec fn deep_view(&self) -> LogicalView {
        LogicalView { text: self.text@, role: self.role.deep_view() }
    }
}

/// The length of the run of `mark` that `text` begins with.
pub open spec fn run_len(text: Seq<char>, mark: char) -> nat
    decreases text.len(),
{
    if text.len() == 0 || text[0] != mark {
        0
    } else {
        1 + run_len(text.skip(1), mark)
    }
}

pub fn run_length(chars: &Vec<char>, from: usize, mark: char) -> (len: usize)
    requires
        from <= chars.len(),
    ensures
        len == run_len(chars@.skip(from as int), mark),
        from + len <= chars.len(),
{
    let mut i: usize = from;
    while i < chars.len() && chars[i] == mark
        invariant
            from <= i <= chars.len(),
            run_len(chars@.skip(from as int), mark) == (i - from) + run_len(
                chars@.skip(i as int),
                mark,
            ),
        decreases chars.len() - i,
    {
        proof {
            assert(chars@.skip(i as int).skip(1) =~= chars@.skip(i as int + 1));
        }
        i += 1;
    }
    i - from
}

/// The marker and info string of a fence line: three or more backticks or
/// tildes, behind optional white space.
pub open spec fn fence_of(text: Seq<char>) -> Option<(char, Seq<char>)> {
    let body = trim_start(text);
    if body.len() > 0 && (body[0] == '`' || body[0] == '~') && run_len(body, body[0]) >= 3 {
        Some((body[0], trim(body.skip(run_len(body, body[0]) as int))))
    } else {
        None
    }
}

/// A fence opener and its info string, if this line is one.
pub fn fence_run(text: &str) -> (fence: Option<(char, String)>)
    ensures
        match fence {
            Some((marker, info)) => fence_of(text@) == Some((marker, info@)),
            None => fence_of(text@) is None,
        },
{
    let chars = strs::chars_of(text);
    let from = strs::skip_white(&chars);
    let ghost body = trim_start(text@);
    proof {
        assert(chars@.skip(from as int) =~= body);
    }
    if from == chars.len() {
        return None;
    }
    let marker = chars[from];
    if marker != '`' && marker != '~' {
        return None;
    }
    let run = run_length(&chars, from, marker);
    if run < 3 {
        return None;
    }
    let info = strs::string_of(&chars, from + run, chars.len());
    proof {
        assert(info@ =~= body.skip(run as int));
    }
    Some((marker, strs::trimmed(info.as_str())))
}

/// Whether the line closes a fence opened with `marker`: a run of the same
/// marker without an info string.
pub open spec fn fence_closes(text: Seq<char>, marker: char) -> bool {
    fence_of(text) == Some((marker, Seq::<char>::empty()))
}

pub fn closes_fence(text: &str, marker: char) -> (yes: bool)
    ensures
        yes == fence_closes(text@, marker),
{
    match fence_run(text) {
        Some((found, info)) => {
            let empty = info.as_str().is_empty();
            proof {
                if empty {
                    assert(info@ =~= Seq::<char>::empty());
                }
            }
            found == marker && empty
        },
        None => false,
    }
}

/// One to six number signs, then a blank or the end of the line.
pub open spec fn atx_heading(text: Seq<char>) -> bool {
    let body = trim_start(text);
    let hashes = run_len(body, '#');
    1 <= hashes <= 6 && (hashes == body.len() || body[hashes as int] == ' ' || body[hashes as int]
        == '\t')
}

pub proof fn run_len_bound(text: Seq<char>, mark: char)
    ensures
        run_len(text, mark) <= text.len(),
    decreases text.len(),
{
    if text.len() > 0 && text[0] == mark {
        run_len_bound(text.skip(1), mark);
    }
}

pub fn is_atx_heading(text: &str) -> (yes: bool)
    ensures
        yes == atx_heading(text@),
{
    let chars = strs::chars_of(text);
    let from = strs::skip_white(&chars);
    let hashes = run_length(&chars, from, '#');
    proof {
        assert(chars@.skip(from as int) =~= trim_start(text@));
        run_len_bound(trim_start(text@), '#');
    }
    if hashes < 1 || hashes > 6 {
        return false;
    }
    let next: usize = from + hashes;
    next == chars.len() || chars[next] == ' ' || chars[next] == '\t'
}

/// A line with a pipe in it.
pub open spec fn pipe_row(text: Seq<char>) -> bool {
    trim(text).contains('|')
}

/// A table delimiter: pipes and dashes with optional colons and blanks, at
/// least one pipe and one dash.
pub open spec fn delim_row(text: Seq<char>) -> bool {
    let body = trim(text);
    &&& body.contains('|')
    &&& body.contains('-')
    &&& forall|i: int|
        0 <= i < body.len() ==> (#[trigger] body[i] == '|' || body[i] == ':' || body[i] == '-'
            || body[i] == ' ')
}

/// Whether `mark` is among the characters.
pub fn holds(chars: &Vec<char>, mark: char) -> (yes: bool)
    ensures
        yes == chars@.contains(mark),
{
    let mut i: usize = 0;
    while i < chars.len()
        invariant
            i <= chars.len(),
            forall|k: int| 0 <= k < i ==> chars@[k] != mark,
        decreases chars.len() - i,
    {
        if chars[i] == mark {
            proof {
                assert(chars@[i as int] == mark);
            }
            return true;
        }
        i += 1;
    }
    false
}

pub fn is_pipe_row(text: &str) -> (yes: bool)
    ensures
        yes == pipe_row(text@),
{
    let body = strs::trimmed(text);
    holds(&strs::chars_of(body.as_str()), '|')
}

pub fn is_delim_row(text: &str) -> (yes: bool)
    ensures
        yes == delim_row(text@),
{
    let body = strs::trimmed(text);
    let chars = strs::chars_of(body.as_str());
    if !holds(&chars, '|') || !holds(&chars, '-') {
        return false;
    }
    let mut i: usize = 0;
    while i < chars.len()
        invariant
            i <= chars.len(),
            chars@ == trim(text@),
            chars@.contains('|'),
            chars@.contains('-'),
            forall|k: int|
                0 <= k < i ==> (#[trigger] chars@[k] == '|' || chars@[k] == ':' || chars@[k] == '-'
                    || chars@[k] == ' '),
        decreases chars.len() - i,
    {
        let c = chars[i];
        if c != '|' && c != ':' && c != '-' && c != ' ' {
            proof {
                assert(trim(text@)[i as int] == c);
            }
            return false;
        }
        i += 1;
    }
    true
}

// ---------------------------------------------------------------------------
// The two passes
// ---------------------------------------------------------------------------

/// The fence that is open before line `i`: its marker and language.
pub open spec fn open_fence(lines: Seq<Seq<char>>, i: int) -> Option<(char, Seq<char>)>
    decreases i,
{
    if i <= 0 {
        None
    } else {
        match open_fence(lines, i - 1) {
            None => fence_of(lines[i - 1]),
            Some((marker, lang)) => if fence_closes(lines[i - 1], marker) {
                None
            } else {
                Some((marker, lang))
            },
        }
    }
}

/// The role of line `i` as far as fences and headings decide it.
pub open spec fn fence_role(lines: Seq<Seq<char>>, i: int) -> RoleView {
    match open_fence(lines, i) {
        None => if fence_of(lines[i]) is Some {
            RoleView::FenceEdge
        } else if atx_heading(lines[i]) {
            RoleView::Heading
        } else {
            RoleView::Plain
        },
        Some((marker, lang)) => if fence_closes(lines[i], marker) {
            RoleView::FenceEdge
        } else {
            RoleView::FenceBody { lang }
        },
    }
}

/// Where a line stands with respect to a table.
#[derive(Clone, Copy, Debug, PartialEq, Eq, Structural)]
pub enum TableState {
    /// Outside of any table.
    Outside,
    /// Right below a header row.
    BelowHeader,
    /// Below the delimiter row.
    InBody,
}

/// Whether a pipe row at `i` is settled as a header by the row below it.
pub open spec fn settles(lines: Seq<Seq<char>>, i: int) -> bool {
    &&& 0 <= i
    &&& i + 1 < lines.len()
    &&& fence_role(lines, i) == RoleView::Plain
    &&& pipe_row(lines[i])
    &&& fence_role(lines, i + 1) == RoleView::Plain
    &&& delim_row(lines[i + 1])
}

/// The state below a line of the given role.
pub open spec fn state_below(role: RoleView) -> TableState {
    match role {
        RoleView::TableHeader => TableState::BelowHeader,
        RoleView::TableDelim | RoleView::TableBody => TableState::InBody,
        _ => TableState::Outside,
    }
}

/// The table state that line `i` finds.
pub open spec fn table_state(lines: Seq<Seq<char>>, i: int) -> TableState {
    if i <= 0 {
        TableState::Outside
    } else {
        state_below(line_role(lines, i - 1))
    }
}

/// The role of line `i`.
pub open spec fn line_role(lines: Seq<Seq<char>>, i: int) -> RoleView
    decreases i,
{
    let state = if i <= 0 {
        TableState::Outside
    } else {
        state_below(line_role(lines, i - 1))
    };
    if state == TableState::BelowHeader {
        RoleView::TableDelim
    } else if state == TableState::InBody && fence_role(lines, i) == RoleView::Plain && pipe_row(
        lines[i],
    ) {
        RoleView::TableBody
    } else if settles(lines, i) {
        RoleView::TableHeader
    } else {
        fence_role(lines, i)
    }
}

/// Every line of the answer with its role.
pub open spec fn classified(answer: Seq<char>) -> Seq<LogicalView> {
    let lines = split_on(answer, '\n');
    Seq::new(lines.len(), |i: int| LogicalView { text: lines[i], role: line_role(lines, i) })
}

/// Labels every logical line of one answer.
pub fn classify(answer: &str) -> (lines: Vec<LogicalLine>)
    ensures
        lines.deep_view() == classified(answer@),
{
    let texts = strs::split(answer, '\n');
    let ghost all = texts.deep_view();
    let mut roles: Vec<BlockRole> = Vec::new();
    let mut fence: Option<(char, String)> = None;
    let mut i: usize = 0;
    while i < texts.len()
        invariant
            i <= texts.len(),
            all == texts.deep_view(),
            roles.len() == i,
            match fence {
                None => open_fence(all, i as int) is None,
                Some((marker, lang)) => open_fence(all, i as int) == Some((marker, lang@)),
            },
            forall|k: int| 0 <= k < i ==> (#[trigger] roles@[k]).deep_view() == fence_role(all, k),
        decreases texts.len() - i,
    {
        let text = texts[i].as_str();
        assert(all[i as int] == text@);
        match fence {
            None => {
                fence = fence_run(text);
                if fence.is_some() {
                    roles.push(BlockRole::FenceEdge);
                } else if is_atx_heading(text) {
                    roles.push(BlockRole::Heading);
                } else {
                    roles.push(BlockRole::Plain);
                }
            },
            Some((marker, lang)) => {
                if closes_fence(text, marker) {
                    roles.push(BlockRole::FenceEdge);
                    fence = None;
                } else {
                    roles.push(BlockRole::FenceBody { lang: lang.clone() });
                    fence = Some((marker, lang));
                }
            },
        }
        i += 1;
    }
    let mut lines: Vec<LogicalLine> = Vec::new();
    let mut state = TableState::Outside;
    let mut i: usize = 0;
    while i < texts.len()
        invariant
            i <= texts.len(),
            all == texts.deep_view(),
            roles.len() == texts.len(),
            lines.len() == i,
            state == table_state(all, i as int),
            forall|k: int|
                0 <= k < roles.len() ==> (#[trigger] roles@[k]).deep_view() == fence_role(all, k),
            forall|k: int|
                0 <= k < i ==> (#[trigger] lines@[k]).deep_view() == (LogicalView {
                    text: all[k],
                    role: line_role(all, k),
                }),
        decreases texts.len() - i,
    {
        let text = texts[i].as_str();
        assert(all[i as int] == text@);
        assert(roles@[i as int].deep_view() == fence_role(all, i as int));
        let plain = matches!(roles[i], BlockRole::Plain);
        let role = if state == TableState::BelowHeader {
            state = TableState::InBody;
            BlockRole::TableDelim
        } else if state == TableState::InBody && plain && is_pipe_row(text) {
            BlockRole::TableBody
        } else {
            let mut header = plain && is_pipe_row(text) && i + 1 < texts.len();
            if header {
                assert(roles@[i + 1].deep_view() == fence_role(all, i + 1));
                assert(all[i + 1] == texts@[i + 1]@);
                header = matches!(roles[i + 1], BlockRole::Plain) && is_delim_row(
                    texts[i + 1].as_str(),
                );
            }
            if header {
                state = TableState::BelowHeader;
                BlockRole::TableHeader
            } else {
                state = TableState::Outside;
                roles[i].copy()
            }
        };
        assert(role.deep_view() == line_role(all, i as int));
        lines.push(LogicalLine { text: texts[i].clone(), role });
        i += 1;
    }
    proof {
        assert(lines.deep_view() =~= classified(answer@));
    }
    lines
}

// ---------------------------------------------------------------------------
// Laws
// ---------------------------------------------------------------------------

/// Whether a role belongs to a table.
pub open spec fn in_table(role: RoleView) -> bool {
    role == RoleView::TableHeader || role == RoleView::TableDelim || role == RoleView::TableBody
}

/// Tables settle outside fences only: every line of a table is plain as far as
/// fences are concerned, and its delimiter stands right below its header.
pub proof fn tables_stay_outside_fences(lines: Seq<Seq<char>>, i: int)
    requires
        0 <= i < lines.len(),
    ensures
        in_table(line_role(lines, i)) ==> fence_role(lines, i) == RoleView::Plain,
        in_table(line_role(lines, i)) ==> open_fence(lines, i) is None,
        line_role(lines, i) == RoleView::TableDelim <==> i > 0 && line_role(lines, i - 1)
            == RoleView::TableHeader,
    decreases i,
{
    if i > 0 {
        tables_stay_outside_fences(lines, i - 1);
    }
}

/// A fence owns everything until its matching close: while one is open, each
/// line is its edge or a body row of its language.
pub proof fn open_fence_owns_the_line(lines: Seq<Seq<char>>, i: int)
    requires
        0 <= i < lines.len(),
        open_fence(lines, i) is Some,
    ensures
        line_role(lines, i) == (if fence_closes(lines[i], open_fence(lines, i).unwrap().0) {
            RoleView::FenceEdge
        } else {
            RoleView::FenceBody { lang: open_fence(lines, i).unwrap().1 }
        }),
{
    tables_stay_outside_fences(lines, i);
}

/// A fence that no line closes runs to the end of the answer.
pub proof fn unclosed_fence_runs_to_the_end(lines: Seq<Seq<char>>, from: int, i: int)
    requires
        0 <= from <= i <= lines.len(),
        open_fence(lines, from) is Some,
        forall|k: int|
            from <= k < lines.len() ==> !fence_closes(
                #[trigger] lines[k],
                open_fence(lines, from).unwrap().0,
            ),
    ensures
        open_fence(lines, i) == open_fence(lines, from),
    decreases i,
{
    if from < i {
        unclosed_fence_runs_to_the_end(lines, from, i - 1);
        assert(!fence_closes(lines[i - 1], open_fence(lines, from).unwrap().0));
    }
}

/// A run ends where something else follows, and has the marks that it has.
pub proof fn runs_end(count: nat, rest: Seq<char>, mark: char)
    requires
        rest.len() == 0 || rest[0] != mark,
    ensures
        run_len(repeated(mark, count) + rest, mark) == count,
    decreases count,
{
    let text = repeated(mark, count) + rest;
    if count == 0 {
        assert(text =~= rest);
    } else {
        runs_end((count - 1) as nat, rest, mark);
        assert(text[0] == mark);
        assert(text.skip(1) =~= repeated(mark, (count - 1) as nat) + rest);
    }
}

/// One to six number signs at the start of a line, white space before them
/// aside, make it a heading where a blank follows them or nothing does; a
/// seventh sign, none at all, or a word right behind them does not.
pub proof fn headings_have_one_to_six_signs(before: Seq<char>, signs: nat, rest: Seq<char>)
    requires
        forall|i: int| 0 <= i < before.len() ==> strs::is_white(#[trigger] before[i]),
        rest.len() > 0 ==> rest[0] != '#' && (signs == 0 ==> !strs::is_white(rest[0])),
    ensures
        atx_heading(before + repeated('#', signs) + rest) <==> 1 <= signs <= 6 && (rest.len() == 0
            || rest[0] == ' ' || rest[0] == '\t'),
{
    let body = repeated('#', signs) + rest;
    assert(before + repeated('#', signs) + rest =~= before + body);
    body_is_left(before, body);
    runs_end(signs, rest, '#');
    if rest.len() > 0 {
        assert(body[signs as int] == rest[0]);
    }
}

proof fn body_is_left(before: Seq<char>, body: Seq<char>)
    requires
        forall|i: int| 0 <= i < before.len() ==> strs::is_white(#[trigger] before[i]),
        body.len() > 0 ==> !strs::is_white(body[0]),
    ensures
        trim_start(before + body) == body,
    decreases before.len(),
{
    let text = before + body;
    if before.len() == 0 {
        assert(text =~= body);
        assert(body.skip(0) =~= body);
    } else {
        assert(text[0] == before[0]);
        assert(text.skip(1) =~= before.skip(1) + body);
        assert forall|i: int| 0 <= i < before.skip(1).len() implies strs::is_white(
            #[trigger] before.skip(1)[i],
        ) by {
            assert(before.skip(1)[i] == before[i + 1]);
        }
        body_is_left(before.skip(1), body);
        strs::leading_white_goes(text.skip(1));
        assert(trim_start(text) =~= trim_start(text.skip(1)));
    }
}

/// A line is a fence where it begins with three or more backticks or tildes,
/// white space before them aside; the rest of the line, trimmed, is its
/// language. Only a fence of the same mark with no such rest closes.
pub proof fn fences_have_three_marks(before: Seq<char>, mark: char, marks: nat, rest: Seq<char>)
    requires
        forall|i: int| 0 <= i < before.len() ==> strs::is_white(#[trigger] before[i]),
        mark == '`' || mark == '~',
        marks > 0,
        rest.len() > 0 ==> rest[0] != mark,
    ensures
        marks < 3 ==> fence_of(before + repeated(mark, marks) + rest) is None,
        marks >= 3 ==> fence_of(before + repeated(mark, marks) + rest) == Some((mark, trim(rest))),
        forall|opened: char| #[trigger]
            fence_closes(before + repeated(mark, marks) + rest, opened) <==> marks >= 3 && opened
                == mark && trim(rest).len() == 0,
{
    let body = repeated(mark, marks) + rest;
    assert(before + repeated(mark, marks) + rest =~= before + body);
    assert(body[0] == mark);
    body_is_left(before, body);
    runs_end(marks, rest, mark);
    assert(body.skip(marks as int) =~= rest);
    if trim(rest).len() == 0 {
        assert(trim(rest) =~= Seq::<char>::empty());
    }
}

/// A line that begins with something else than a backtick or a tilde is no fence.
pub proof fn other_lines_are_no_fences(text: Seq<char>)
    requires
        text.len() > 0,
        !strs::is_white(text[0]),
        text[0] != '`' && text[0] != '~',
    ensures
        fence_of(text) is None,
{
    assert(Seq::<char>::empty() + text =~= text);
    body_is_left(Seq::empty(), text);
}

/// From a fence on, every line up to the first one that closes it is code in
/// the fence's language, whatever the line looks like; the closing line is an
/// edge like the opening one, and the line below it stands outside again.
pub proof fn code_runs_from_fence_to_fence(
    lines: Seq<Seq<char>>,
    from: int,
    at: int,
    mark: char,
    lang: Seq<char>,
)
    requires
        0 <= from < at < lines.len(),
        open_fence(lines, from) is None,
        fence_of(lines[from]) == Some((mark, lang)),
        forall|j: int| from < j < at ==> !fence_closes(#[trigger] lines[j], mark),
    ensures
        fence_role(lines, from) == RoleView::FenceEdge,
        line_role(lines, at) == if fence_closes(lines[at], mark) {
            RoleView::FenceEdge
        } else {
            RoleView::FenceBody { lang }
        },
        fence_closes(lines[at], mark) ==> open_fence(lines, at + 1) is None,
    decreases at,
{
    still_open(lines, from, at, mark, lang);
    tables_stay_outside_fences(lines, at);
}

proof fn still_open(lines: Seq<Seq<char>>, from: int, at: int, mark: char, lang: Seq<char>)
    requires
        0 <= from < at <= lines.len(),
        open_fence(lines, from) is None,
        fence_of(lines[from]) == Some((mark, lang)),
        forall|j: int| from < j < at ==> !fence_closes(#[trigger] lines[j], mark),
    ensures
        open_fence(lines, at) == Some((mark, lang)),
    decreases at,
{
    if at > from + 1 {
        still_open(lines, from, at - 1, mark, lang);
    }
}

/// Classifying keeps the lines: joined by line breaks again, their texts are the
/// answer.
pub proof fn classifying_keeps_the_text(answer: Seq<char>)
    ensures
        join(classified(answer).map_values(|line: LogicalView| line.text), seq!['\n']) == answer,
        forall|i: int| 0 <= i < classified(answer).len() ==> !(#[trigger] classified(
            answer,
        )[i]).text.contains('\n'),
{
    strs::join_inverts_split(answer, '\n');
    strs::pieces_hold_no_mark(answer, '\n');
    assert(classified(answer).map_values(|line: LogicalView| line.text) =~= split_on(answer, '\n'));
}

/// Whether no line of the answer is a fence or a heading.
pub open spec fn only_prose(lines: Seq<Seq<char>>) -> bool {
    forall|i: int|
        0 <= i < lines.len() ==> fence_of(#[trigger] lines[i]) is None && !atx_heading(lines[i])
}

/// Among lines of plain prose a table is a row with a bar above a row of
/// dashes and bars, with the rows with bars that follow: the first line below
/// without a bar ends it, and a line with a bar and no such row under it is plain.
pub proof fn tables_begin_at_their_header(lines: Seq<Seq<char>>, at: int)
    requires
        only_prose(lines),
        0 <= at < lines.len(),
    ensures
        !lines[at].contains('|') ==> line_role(lines, at) == RoleView::Plain,
        (at == 0 || line_role(lines, at - 1) == RoleView::Plain) ==> line_role(lines, at) == if
            lines[at].contains('|') && at + 1 < lines.len() && delim_row(lines[at + 1]) {
            RoleView::TableHeader
        } else {
            RoleView::Plain
        },
        at > 0 && line_role(lines, at - 1) == RoleView::TableHeader ==> line_role(lines, at)
            == RoleView::TableDelim,
        at > 0 && (line_role(lines, at - 1) == RoleView::TableDelim || line_role(lines, at - 1)
            == RoleView::TableBody) ==> line_role(lines, at) == if lines[at].contains('|') {
            RoleView::TableBody
        } else {
            RoleView::Plain
        },
        line_role(lines, at) == RoleView::TableDelim ==> delim_row(lines[at]),
{
    prose_roles(lines, at);
    if at + 1 < lines.len() {
        prose_roles(lines, at + 1);
    }
    if at > 0 {
        prose_roles(lines, at - 1);
    }
    bars_survive_trimming(lines[at]);
    if line_role(lines, at) == RoleView::TableDelim {
        tables_stay_outside_fences(lines, at);
        assert(at > 0 && line_role(lines, at - 1) == RoleView::TableHeader);
        assert(settles(lines, at - 1));
    }
    if at > 0 && line_role(lines, at - 1) == RoleView::TableHeader {
        assert(settles(lines, at - 1));
        strs::trimming_keeps(lines[at], '|');
    }
}

proof fn prose_roles(lines: Seq<Seq<char>>, at: int)
    requires
        only_prose(lines),
        0 <= at < lines.len(),
    ensures
        open_fence(lines, at) is None,
        fence_role(lines, at) == RoleView::Plain,
    decreases at,
{
    assert(fence_of(lines[at]) is None);
    if at > 0 {
        prose_roles(lines, at - 1);
        assert(fence_of(lines[at - 1]) is None);
    }
}

proof fn bars_survive_trimming(text: Seq<char>)
    ensures
        pipe_row(text) <==> text.contains('|'),
{
    strs::trimming_keeps(text, '|');
}

} // verus!
