//! Multi-line input editor with grapheme-safe cursor movement.

use vstd::prelude::*;

use super::text;
use super::text::{cell_width, content, content_add, fit, measured, ClusterView};
use crate::strs;
use crate::strs::{is_control, join, split_on};

verus! {

/// Multi-line editor state. The cursor is a row and a character position in it,
/// and can only land between extended grapheme clusters.
#[derive(Clone, Debug, PartialEq, Eq)]
pub struct InputEditor {
    pub lines: Vec<String>,
    pub row: usize,
    pub col: usize,
    /// The column vertical movement aims at.
    pub preferred_cell: Option<usize>,
}

/// An [`InputEditor`] as a mathematical value.
pub struct EditorView {
    pub lines: Seq<Seq<char>>,
    pub row: int,
    pub col: int,
    pub preferred: Option<usize>,
}

impl View for InputEditor {
    type V = EditorView;

    open spec fn view(&self) -> EditorView {
        EditorView {
            lines: self.lines.deep_view(),
            row: self.row as int,
            col: self.col as int,
            preferred: self.preferred_cell,
        }
    }
}

// ---------------------------------------------------------------------------
// What editing does
// ---------------------------------------------------------------------------

/// No character is a control character.
pub open spec fn tidy(line: Seq<char>) -> bool {
    forall|i: int| 0 <= i < line.len() ==> !is_control(#[trigger] line[i])
}

/// Where the first `k` grapheme clusters of a line end.
pub open spec fn boundary(line: Seq<char>, k: int) -> int {
    content(measured(line).take(k)).len() as int
}

/// Whether a position lies between two grapheme clusters of a line, or at one of
/// its ends.
pub open spec fn at_boundary(line: Seq<char>, col: int) -> bool {
    ||| col == 0
    ||| col == line.len()
    ||| exists|k: int| 0 <= k <= measured(line).len() && #[trigger] boundary(line, k) == col
}

/// The cursor stands in a line that is there, and no line holds a control
/// character.
pub open spec fn inside(e: EditorView) -> bool {
    &&& 0 <= e.row < e.lines.len()
    &&& 0 <= e.col <= e.lines[e.row].len()
    &&& forall|i: int| 0 <= i < e.lines.len() ==> tidy(#[trigger] e.lines[i])
}

/// The cursor stands between two grapheme clusters of a line that is there, and
/// no line holds a control character.
pub open spec fn sound(e: EditorView) -> bool {
    inside(e) && at_boundary(e.lines[e.row], e.col)
}

/// One empty line.
pub open spec fn blank() -> EditorView {
    EditorView { lines: seq![Seq::empty()], row: 0, col: 0, preferred: None }
}

/// The whole draft.
pub open spec fn draft(e: EditorView) -> Seq<char> {
    join(e.lines, "\n"@)
}

/// The line the cursor stands in.
pub open spec fn current(e: EditorView) -> Seq<char> {
    e.lines[e.row]
}

/// The start of the cluster that holds the character at `at`: the last that
/// begins there or before.
pub open spec fn cluster_start(items: Seq<ClusterView>, at: int) -> int
    decreases items.len(),
{
    if items.len() == 0 {
        0
    } else if content(items.drop_last()).len() <= at {
        content(items.drop_last()).len() as int
    } else {
        cluster_start(items.drop_last(), at)
    }
}

/// The end of the cluster that holds the character at `at`.
pub open spec fn cluster_end(items: Seq<ClusterView>, at: int) -> int
    decreases items.len(),
{
    if items.len() == 0 {
        0
    } else if content(items.drop_last()).len() <= at {
        content(items).len() as int
    } else {
        cluster_end(items.drop_last(), at)
    }
}

/// The cursor moved out of a cluster, to its end.
pub open spec fn snapped(e: EditorView) -> EditorView {
    if at_boundary(current(e), e.col) {
        e
    } else {
        EditorView { col: cluster_end(measured(current(e)), e.col - 1), ..e }
    }
}

/// One more character at the cursor, unless it is a control character; the
/// cursor right behind it.
pub open spec fn put(e: EditorView, ch: char) -> EditorView {
    if is_control(ch) {
        e
    } else {
        EditorView {
            lines: e.lines.update(e.row, current(e).insert(e.col, ch)),
            row: e.row,
            col: e.col + 1,
            preferred: None,
        }
    }
}

/// One more character at the cursor, unless it is a control character; the
/// cursor behind the cluster it became part of.
pub open spec fn typed(e: EditorView, ch: char) -> EditorView {
    snapped(put(e, ch))
}

/// The line broken at the cursor.
pub open spec fn broken(e: EditorView) -> EditorView {
    EditorView {
        lines: e.lines.update(e.row, current(e).take(e.col)).insert(
            e.row + 1,
            current(e).skip(e.col),
        ),
        row: e.row + 1,
        col: 0,
        preferred: None,
    }
}

/// One character of pasted text: newlines break the line, other control
/// characters are dropped.
pub open spec fn put_pasted(e: EditorView, ch: char) -> EditorView {
    if ch == '\n' {
        broken(e)
    } else {
        put(e, ch)
    }
}

pub open spec fn put_all(e: EditorView, value: Seq<char>) -> EditorView
    decreases value.len(),
{
    if value.len() == 0 {
        e
    } else {
        put_pasted(put_all(e, value.drop_last()), value.last())
    }
}

/// A text pasted in one piece; the cursor behind the cluster it ends in.
pub open spec fn pasted(e: EditorView, value: Seq<char>) -> EditorView {
    snapped(put_all(e, value))
}

/// Line `row` joined with the line below it.
pub open spec fn merged(lines: Seq<Seq<char>>, row: int) -> Seq<Seq<char>> {
    lines.update(row, lines[row] + lines[row + 1]).remove(row + 1)
}

/// The boundary of the grapheme that ends at `col`.
pub open spec fn boundary_before(line: Seq<char>, col: int) -> int {
    cluster_start(measured(line), col - 1)
}

/// The boundary of the grapheme that begins at `col`.
pub open spec fn boundary_after(line: Seq<char>, col: int) -> int {
    cluster_end(measured(line), col)
}

/// The last boundary of the line at or before terminal cell `target`.
pub open spec fn boundary_at(line: Seq<char>, target: nat) -> int {
    let items = measured(line);
    content(items.take(fit(items, target) as int)).len() as int
}

/// The grapheme before the cursor removed, or the line joined to the one above.
pub open spec fn erased(e: EditorView) -> EditorView {
    let done = EditorView { preferred: None, ..e };
    if e.col > 0 {
        let at = boundary_before(current(e), e.col);
        snapped(
            EditorView {
                lines: e.lines.update(e.row, current(e).take(at) + current(e).skip(e.col)),
                col: at,
                ..done
            },
        )
    } else if e.row > 0 {
        snapped(
            EditorView {
                lines: merged(e.lines, e.row - 1),
                row: e.row - 1,
                col: e.lines[e.row - 1].len() as int,
                ..done
            },
        )
    } else {
        done
    }
}

/// The grapheme behind the cursor removed, or the line below joined to this one.
pub open spec fn deleted(e: EditorView) -> EditorView {
    let done = EditorView { preferred: None, ..e };
    if e.col < current(e).len() {
        let to = boundary_after(current(e), e.col);
        snapped(
            EditorView {
                lines: e.lines.update(e.row, current(e).take(e.col) + current(e).skip(to)),
                ..done
            },
        )
    } else if e.row + 1 < e.lines.len() {
        snapped(EditorView { lines: merged(e.lines, e.row), ..done })
    } else {
        done
    }
}

/// The cursor one grapheme to the left, at the end of the line above past the
/// beginning.
pub open spec fn moved_left(e: EditorView) -> EditorView {
    let done = EditorView { preferred: None, ..e };
    if e.col > 0 {
        EditorView { col: boundary_before(current(e), e.col), ..done }
    } else if e.row > 0 {
        EditorView { row: e.row - 1, col: e.lines[e.row - 1].len() as int, ..done }
    } else {
        done
    }
}

/// The cursor one grapheme to the right, at the beginning of the line below past
/// the end.
pub open spec fn moved_right(e: EditorView) -> EditorView {
    let done = EditorView { preferred: None, ..e };
    if e.col < current(e).len() {
        EditorView { col: boundary_after(current(e), e.col), ..done }
    } else if e.row + 1 < e.lines.len() {
        EditorView { row: e.row + 1, col: 0, ..done }
    } else {
        done
    }
}

/// The terminal column vertical movement aims at.
pub open spec fn aim(e: EditorView) -> usize {
    match e.preferred {
        Some(cell) => cell,
        None => cell_width(current(e).take(e.col)),
    }
}

/// The cursor on another row, as near its column as the row allows.
pub open spec fn moved_to(e: EditorView, row: int) -> EditorView {
    EditorView {
        row,
        col: boundary_at(e.lines[row], aim(e) as nat),
        preferred: Some(aim(e)),
        ..e
    }
}

/// The line without control characters.
pub open spec fn sanitized(line: Seq<char>) -> Seq<char>
    decreases line.len(),
{
    if line.len() == 0 {
        Seq::empty()
    } else if is_control(line.last()) {
        sanitized(line.drop_last())
    } else {
        sanitized(line.drop_last()).push(line.last())
    }
}

/// A given text, the cursor at its end.
pub open spec fn filled(text: Seq<char>) -> EditorView {
    let lines = split_on(text, '\n').map_values(|line: Seq<char>| sanitized(line));
    EditorView {
        lines,
        row: lines.len() - 1,
        col: lines[lines.len() - 1].len() as int,
        preferred: None,
    }
}

proof fn sanitized_is_tidy(line: Seq<char>)
    ensures
        tidy(sanitized(line)),
    decreases line.len(),
{
    if line.len() > 0 {
        sanitized_is_tidy(line.drop_last());
    }
}

fn sanitize(line: &str) -> (result: String)
    ensures
        result@ == sanitized(line@),
{
    let chars = strs::chars_of(line);
    let mut result = String::new();
    let mut i: usize = 0;
    while i < chars.len()
        invariant
            i <= chars.len(),
            chars@ == line@,
            result@ == sanitized(chars@.take(i as int)),
        decreases chars.len() - i,
    {
        proof {
            assert(chars@.take(i as int + 1).drop_last() =~= chars@.take(i as int));
        }
        if !strs::control(chars[i]) {
            result.push(chars[i]);
        }
        i += 1;
    }
    proof {
        assert(chars@.take(i as int) =~= line@);
    }
    result
}

// ---------------------------------------------------------------------------
// Grapheme boundaries
// ---------------------------------------------------------------------------

/// The text `chars[..from] + chars[to..]`.
fn without(chars: &Vec<char>, from: usize, to: usize) -> (text: String)
    requires
        from <= chars.len(),
        to <= chars.len(),
    ensures
        text@ == chars@.take(from as int) + chars@.skip(to as int),
{
    let mut text = strs::string_of(chars, 0, from);
    text.push_str(strs::string_of(chars, to, chars.len()).as_str());
    proof {
        assert(text@ =~= chars@.take(from as int) + chars@.skip(to as int));
    }
    text
}

/// The clusters of a line are all of it, and none is empty.
spec fn segmented(line: Seq<char>) -> bool {
    &&& content(measured(line)) == line
    &&& forall|i: int| 0 <= i < measured(line).len() ==> (#[trigger] measured(line)[i]).text.len() > 0
}

proof fn content_grows(items: Seq<ClusterView>, j: int, k: int)
    requires
        0 <= j <= k <= items.len(),
    ensures
        content(items.take(j)).len() <= content(items.take(k)).len(),
    decreases k - j,
{
    if j < k {
        assert(items.take(k).drop_last() =~= items.take(k - 1));
        content_grows(items, j, k - 1);
    }
}

/// The cluster that holds a character, found by its two ends.
proof fn cluster_found(items: Seq<ClusterView>, at: int, k: int)
    requires
        0 <= k < items.len(),
        content(items.take(k)).len() <= at < content(items.take(k + 1)).len(),
    ensures
        cluster_start(items, at) == content(items.take(k)).len(),
        cluster_end(items, at) == content(items.take(k + 1)).len(),
    decreases items.len(),
{
    let rest = items.drop_last();
    if k == items.len() - 1 {
        assert(items.take(k) =~= rest);
        assert(items.take(k + 1) =~= items);
    } else {
        content_grows(items, k + 1, items.len() - 1);
        assert(items.take(items.len() - 1) =~= rest);
        assert(rest.take(k) =~= items.take(k));
        assert(rest.take(k + 1) =~= items.take(k + 1));
        cluster_found(rest, at, k);
    }
}

/// The cluster that ends at a boundary, and where stepping over it leads.
proof fn cluster_ends_at_boundary(line: Seq<char>, col: int)
    requires
        segmented(line),
        0 < col <= line.len(),
        at_boundary(line, col),
    ensures
        cluster_end(measured(line), col - 1) == col,
        cluster_end(measured(line), cluster_start(measured(line), col - 1)) == col,
{
    let items = measured(line);
    let n = items.len() as int;
    assert(items.take(n) =~= items);
    assert(boundary(line, n) == line.len());
    let k = choose|k: int| 0 <= k <= n && #[trigger] boundary(line, k) == col;
    assert(items.take(0) =~= Seq::<ClusterView>::empty());
    assert(boundary(line, 0) == 0);
    assert(k > 0);
    assert(items.take(k).drop_last() =~= items.take(k - 1));
    assert(items[k - 1].text.len() > 0);
    cluster_found(items, col - 1, k - 1);
    cluster_found(items, boundary(line, k - 1), k - 1);
}

/// Where the cluster that holds the character at `at` starts and ends.
fn cluster_around(line: &str, at: usize) -> (ends: (usize, usize))
    requires
        at < line@.len(),
    ensures
        segmented(line@),
        ends.0 == cluster_start(measured(line@), at as int),
        ends.1 == cluster_end(measured(line@), at as int),
        at_boundary(line@, ends.0 as int),
        at_boundary(line@, ends.1 as int),
        ends.0 <= at < ends.1 <= line@.len(),
{
    let clusters = text::measure(line);
    let ghost items = clusters.deep_view();
    let whole = strs::chars_of(line).len();
    proof {
        assert forall|i: int| 0 <= i < items.len() implies (#[trigger] items[i]).text.len() > 0 by {
            assert(items[i] == clusters@[i].deep_view());
        }
        assert(items.take(0) =~= Seq::<ClusterView>::empty());
        assert(items.take(items.len() as int) =~= items);
    }
    let mut start: usize = 0;
    let mut i: usize = 0;
    while i < clusters.len()
        invariant
            i <= clusters.len(),
            items == clusters.deep_view(),
            items == measured(line@),
            segmented(line@),
            whole == line@.len(),
            start == content(items.take(i as int)).len(),
            start <= at < whole,
        decreases clusters.len() - i,
    {
        let len = strs::chars_of(clusters[i].text.as_str()).len();
        proof {
            assert(items[i as int] == clusters@[i as int].deep_view());
            assert(items.take(i as int + 1).drop_last() =~= items.take(i as int));
            content_grows(items, i as int + 1, items.len() as int);
            assert(items.take(items.len() as int) =~= items);
            assert(boundary(line@, i as int) == start);
            assert(boundary(line@, i as int + 1) == start + len);
        }
        let end: usize = start + len;
        if at < end {
            proof {
                cluster_found(items, at as int, i as int);
            }
            return (start, end);
        }
        start = end;
        i += 1;
    }
    proof {
        assert(items.take(i as int) =~= items);
        assert(false);
    }
    (start, start)
}

fn boundary_at_cell(line: &str, target: usize) -> (at: usize)
    ensures
        at == boundary_at(line@, target as nat),
        at <= line@.len(),
        at_boundary(line@, at as int),
{
    let clusters = text::measure(line);
    let head = text::head_within(&clusters, target);
    proof {
        let items = clusters.deep_view();
        let k = fit(items, target as nat) as int;
        text::fit_is_longest(items, target as nat);
        assert(items =~= items.take(k) + items.skip(k));
        content_add(items.take(k), items.skip(k));
        assert(boundary(line@, k) == boundary_at(line@, target as nat));
    }
    strs::chars_of(head.as_str()).len()
}

proof fn tidy_parts(line: Seq<char>, from: int, to: int)
    requires
        tidy(line),
        0 <= from <= line.len(),
        0 <= to <= line.len(),
    ensures
        tidy(line.take(from)),
        tidy(line.skip(to)),
        tidy(line.take(from) + line.skip(to)),
{
    assert forall|i: int| 0 <= i < line.take(from).len() implies !is_control(
        #[trigger] line.take(from)[i],
    ) by {
        assert(line.take(from)[i] == line[i]);
    }
    assert forall|i: int| 0 <= i < line.skip(to).len() implies !is_control(
        #[trigger] line.skip(to)[i],
    ) by {
        assert(line.skip(to)[i] == line[i + to]);
    }
    let both = line.take(from) + line.skip(to);
    assert forall|i: int| 0 <= i < both.len() implies !is_control(#[trigger] both[i]) by {
        if i < from {
            assert(both[i] == line[i]);
        } else {
            assert(both[i] == line[i - from + to]);
        }
    }
}

// ---------------------------------------------------------------------------
// The editor
// ---------------------------------------------------------------------------

impl InputEditor {
    /// The editor is in a sound state.
    pub closed spec fn wf(&self) -> bool {
        sound(self@)
    }

    /// What the editor's well-formedness says.
    pub proof fn wf_is_sound(&self)
        ensures
            self.wf() == sound(self@),
    {
    }

    pub fn new() -> (editor: InputEditor)
        ensures
            editor.wf(),
            editor@ == blank(),
    {
        let mut lines: Vec<String> = Vec::new();
        lines.push(String::new());
        let editor = InputEditor { lines, row: 0, col: 0, preferred_cell: None };
        proof {
            assert(editor.lines.deep_view() =~= seq![Seq::<char>::empty()]);
        }
        editor
    }

    pub fn lines(&self) -> (lines: &[String])
        ensures
            lines@ == self.lines@,
    {
        self.lines.as_slice()
    }

    /// The text before the cursor on its line.
    fn before_cursor(&self) -> (prefix: String)
        requires
            self.wf(),
        ensures
            prefix@ == current(self@).take(self@.col),
    {
        let chars = strs::chars_of(self.lines[self.row].as_str());
        let prefix = strs::string_of(&chars, 0, self.col);
        proof {
            assert(prefix@ =~= current(self@).take(self@.col));
        }
        prefix
    }

    /// Logical row and grapheme index.
    pub fn cursor(&self) -> (pos: (usize, usize))
        requires
            self.wf(),
        ensures
            pos.0 == self@.row,
            pos.1 == measured(current(self@).take(self@.col)).len(),
    {
        let clusters = text::measure(self.before_cursor().as_str());
        assert(clusters.deep_view().len() == clusters.len());
        (self.row, clusters.len())
    }

    /// Logical row and byte offset in it.
    pub fn cursor_byte(&self) -> (pos: (usize, usize))
        requires
            self.wf(),
        ensures
            pos.0 == self@.row,
            pos.1 == vstd::utf8::encode_utf8(current(self@).take(self@.col)).len() as usize,
    {
        let prefix = self.before_cursor();
        (self.row, prefix.as_str().len())
    }

    /// The terminal column of the cursor.
    pub fn cursor_cell(&self) -> (cell: usize)
        requires
            self.wf(),
        ensures
            cell == cell_width(current(self@).take(self@.col)),
    {
        text::width(self.before_cursor().as_str())
    }

    pub fn at_line_start(&self) -> (yes: bool)
        ensures
            yes == (self@.col == 0),
    {
        self.col == 0
    }

    pub fn at_line_end(&self) -> (yes: bool)
        requires
            self.wf(),
        ensures
            yes == (self@.col == current(self@).len()),
    {
        self.col == strs::chars_of(self.lines[self.row].as_str()).len()
    }

    pub fn is_empty(&self) -> (yes: bool)
        requires
            self.wf(),
        ensures
            yes == (self@.lines.len() == 1 && self@.lines[0].len() == 0),
            yes ==> self@.lines == blank().lines,
    {
        let yes = self.lines.len() == 1 && self.lines[0].as_str().is_empty();
        proof {
            assert(self@.lines.len() == self.lines@.len());
            assert(self@.lines[0] == self.lines@[0]@);
            if yes {
                assert(self@.lines[0] =~= Seq::<char>::empty());
                assert(self@.lines =~= blank().lines);
            }
        }
        yes
    }

    pub fn text(&self) -> (text: String)
        ensures
            text@ == draft(self@),
    {
        strs::joined(&self.lines, "\n")
    }

    /// Hands the draft over and starts with an empty one.
    pub fn take_text(&mut self) -> (text: String)
        ensures
            text@ == draft(old(self)@),
            final(self).wf(),
            final(self)@ == blank(),
    {
        let text = self.text();
        *self = InputEditor::new();
        text
    }

    pub fn clear(&mut self)
        ensures
            final(self).wf(),
            final(self)@ == blank(),
    {
        *self = InputEditor::new();
    }

    pub fn set_text(&mut self, text: &str)
        ensures
            final(self).wf(),
            final(self)@ == filled(text@),
    {
        let parts = strs::split(text, '\n');
        let ghost all = parts.deep_view();
        let mut lines: Vec<String> = Vec::new();
        let mut i: usize = 0;
        while i < parts.len()
            invariant
                i <= parts.len(),
                all == parts.deep_view(),
                lines.len() == i,
                forall|k: int| 0 <= k < i ==> (#[trigger] lines@[k])@ == sanitized(all[k]),
            decreases parts.len() - i,
        {
            lines.push(sanitize(parts[i].as_str()));
            i += 1;
        }
        let row: usize = lines.len() - 1;
        let col = strs::chars_of(lines[row].as_str()).len();
        *self = InputEditor { lines, row, col, preferred_cell: None };
        proof {
            assert(self@.lines =~= filled(text@).lines);
            assert forall|k: int| 0 <= k < self@.lines.len() implies tidy(
                #[trigger] self@.lines[k],
            ) by {
                sanitized_is_tidy(all[k]);
            }
        }
    }

    /// Moves the cursor out of a cluster.
    fn snap(&mut self)
        requires
            inside(old(self)@),
        ensures
            final(self).wf(),
            final(self)@ == snapped(old(self)@),
    {
        if self.col > 0 {
            let around = cluster_around(self.lines[self.row].as_str(), self.col - 1);
            proof {
                if at_boundary(current(self@), self@.col) {
                    cluster_ends_at_boundary(current(self@), self@.col);
                }
            }
            self.col = around.1;
        }
    }

    /// Puts `text` in place of the current line.
    fn set_line(&mut self, text: String, col: usize)
        requires
            inside(old(self)@),
            tidy(text@),
            col <= text@.len(),
        ensures
            inside(final(self)@),
            final(self)@ == (EditorView {
                lines: old(self)@.lines.update(old(self)@.row, text@),
                col: col as int,
                preferred: None,
                ..old(self)@
            }),
    {
        let row = self.row;
        self.lines.set(row, text);
        self.col = col;
        self.preferred_cell = None;
        proof {
            assert(self@.lines =~= old(self)@.lines.update(row as int, text@));
        }
    }

    pub fn insert_char(&mut self, ch: char)
        requires
            old(self).wf(),
            old(self)@.col < usize::MAX,
        ensures
            final(self).wf(),
            final(self)@ == typed(old(self)@, ch),
    {
        self.put_char(ch);
        self.snap();
    }

    /// Inserts one character, wherever the cursor stands.
    fn put_char(&mut self, ch: char)
        requires
            inside(old(self)@),
            old(self)@.col < usize::MAX,
        ensures
            inside(final(self)@),
            final(self)@ == put(old(self)@, ch),
    {
        if strs::control(ch) {
            return ;
        }
        let chars = strs::chars_of(self.lines[self.row].as_str());
        let mut text = strs::string_of(&chars, 0, self.col);
        text.push(ch);
        text.push_str(strs::string_of(&chars, self.col, chars.len()).as_str());
        proof {
            let line = current(self@);
            assert(text@ =~= line.insert(self@.col, ch));
            assert forall|i: int| 0 <= i < text@.len() implies !is_control(#[trigger] text@[i]) by {
                if i < self@.col {
                    assert(text@[i] == line[i]);
                } else if i > self@.col {
                    assert(text@[i] == line[i - 1]);
                }
            }
        }
        let col: usize = self.col + 1;
        self.set_line(text, col);
    }

    /// Inserts text verbatim except for control characters; newlines split lines
    /// and never submit.
    pub fn insert_str(&mut self, value: &str)
        requires
            old(self).wf(),
            old(self)@.col + value@.len() <= usize::MAX,
            old(self)@.lines.len() + value@.len() <= usize::MAX,
        ensures
            final(self).wf(),
            final(self)@ == pasted(old(self)@, value@),
    {
        let chars = strs::chars_of(value);
        let mut i: usize = 0;
        while i < chars.len()
            invariant
                i <= chars.len(),
                chars@ == value@,
                inside(self@),
                old(self)@.col + value@.len() <= usize::MAX,
                old(self)@.lines.len() + value@.len() <= usize::MAX,
                self@.col <= old(self)@.col + i,
                self@.lines.len() <= old(self)@.lines.len() + i,
                self@ == put_all(old(self)@, chars@.take(i as int)),
            decreases chars.len() - i,
        {
            proof {
                assert(chars@.take(i as int + 1).drop_last() =~= chars@.take(i as int));
            }
            if chars[i] == '\n' {
                self.break_line();
            } else {
                self.put_char(chars[i]);
            }
            i += 1;
        }
        proof {
            assert(chars@.take(i as int) =~= value@);
        }
        self.snap();
    }

    pub fn insert_newline(&mut self)
        requires
            old(self).wf(),
            old(self)@.lines.len() < usize::MAX,
        ensures
            final(self).wf(),
            final(self)@ == broken(old(self)@),
    {
        self.break_line();
    }

    /// Breaks the line, wherever the cursor stands in it.
    fn break_line(&mut self)
        requires
            inside(old(self)@),
            old(self)@.lines.len() < usize::MAX,
        ensures
            inside(final(self)@),
            final(self)@ == broken(old(self)@),
    {
        let ghost before = self@;
        let chars = strs::chars_of(self.lines[self.row].as_str());
        let head = strs::string_of(&chars, 0, self.col);
        let rest = strs::string_of(&chars, self.col, chars.len());
        let row = self.row;
        self.lines.set(row, head);
        self.lines.insert(row + 1, rest);
        self.row = row + 1;
        self.col = 0;
        self.preferred_cell = None;
        proof {
            let line = current(before);
            assert(head@ =~= line.take(before.col));
            assert(rest@ =~= line.skip(before.col));
            assert(self@.lines =~= broken(before).lines);
            tidy_parts(line, before.col, before.col);
            assert forall|i: int| 0 <= i < self@.lines.len() implies tidy(
                #[trigger] self@.lines[i],
            ) by {
                if i < before.row {
                    assert(self@.lines[i] == before.lines[i]);
                } else if i > before.row + 1 {
                    assert(self@.lines[i] == before.lines[i - 1]);
                }
            }
        }
    }

    /// Joins line `row` with the line below it.
    fn merge(&mut self, row: usize, col: usize)
        requires
            old(self).wf(),
            row + 1 < old(self)@.lines.len(),
            col <= old(self)@.lines[row as int].len(),
        ensures
            inside(final(self)@),
            final(self)@ == (EditorView {
                lines: merged(old(self)@.lines, row as int),
                row: row as int,
                col: col as int,
                preferred: None,
            }),
    {
        let ghost before = self@;
        let count = self.lines.len();
        assert(self@.lines.len() == count);
        let below = self.lines.remove(row + 1);
        let text = strs::cat(self.lines[row].as_str(), below.as_str());
        self.lines.set(row, text);
        self.row = row;
        self.col = col;
        self.preferred_cell = None;
        proof {
            let k = row as int;
            assert(text@ == before.lines[k] + before.lines[k + 1]);
            assert(self@.lines =~= merged(before.lines, k));
            assert forall|i: int| 0 <= i < self@.lines.len() implies tidy(
                #[trigger] self@.lines[i],
            ) by {
                if i == k {
                    assert forall|j: int| 0 <= j < text@.len() implies !is_control(
                        #[trigger] text@[j],
                    ) by {
                        if j < before.lines[k].len() {
                            assert(text@[j] == before.lines[k][j]);
                        } else {
                            assert(text@[j] == before.lines[k + 1][j - before.lines[k].len()]);
                        }
                    }
                } else if i < k {
                    assert(self@.lines[i] == before.lines[i]);
                } else {
                    assert(self@.lines[i] == before.lines[i + 1]);
                }
            }
        }
    }

    pub fn backspace(&mut self)
        requires
            old(self).wf(),
        ensures
            final(self).wf(),
            final(self)@ == erased(old(self)@),
    {
        if self.col > 0 {
            let chars = strs::chars_of(self.lines[self.row].as_str());
            let at = cluster_around(self.lines[self.row].as_str(), self.col - 1).0;
            let text = without(&chars, at, self.col);
            proof {
                tidy_parts(current(self@), at as int, self@.col);
            }
            self.set_line(text, at);
            self.snap();
        } else if self.row > 0 {
            let row: usize = self.row - 1;
            let col = strs::chars_of(self.lines[row].as_str()).len();
            self.merge(row, col);
            self.snap();
        } else {
            self.preferred_cell = None;
        }
    }

    pub fn delete(&mut self)
        requires
            old(self).wf(),
        ensures
            final(self).wf(),
            final(self)@ == deleted(old(self)@),
    {
        let chars = strs::chars_of(self.lines[self.row].as_str());
        if self.col < chars.len() {
            let to = cluster_around(self.lines[self.row].as_str(), self.col).1;
            let text = without(&chars, self.col, to);
            proof {
                tidy_parts(current(self@), self@.col, to as int);
            }
            let col = self.col;
            self.set_line(text, col);
            self.snap();
        } else if self.row < self.lines.len() - 1 {
            let row = self.row;
            let col = self.col;
            self.merge(row, col);
            self.snap();
        } else {
            self.preferred_cell = None;
        }
    }

    /// Moves one grapheme to the left. Moving right from there leads back, unless
    /// the cursor stood at the very beginning.
    pub fn move_left(&mut self)
        requires
            old(self).wf(),
        ensures
            final(self).wf(),
            final(self)@ == moved_left(old(self)@),
            old(self)@.row > 0 || old(self)@.col > 0 ==> moved_right(final(self)@) == (EditorView {
                preferred: None,
                ..old(self)@
            }),
    {
        if self.col > 0 {
            let at = cluster_around(self.lines[self.row].as_str(), self.col - 1).0;
            proof {
                cluster_ends_at_boundary(current(self@), self@.col);
            }
            self.col = at;
        } else if self.row > 0 {
            self.row -= 1;
            self.col = strs::chars_of(self.lines[self.row].as_str()).len();
        }
        self.preferred_cell = None;
    }

    pub fn move_right(&mut self)
        requires
            old(self).wf(),
        ensures
            final(self).wf(),
            final(self)@ == moved_right(old(self)@),
    {
        let chars = strs::chars_of(self.lines[self.row].as_str());
        if self.col < chars.len() {
            self.col = cluster_around(self.lines[self.row].as_str(), self.col).1;
        } else if self.row < self.lines.len() - 1 {
            self.row += 1;
            self.col = 0;
        }
        self.preferred_cell = None;
    }

    /// Puts the cursor on another row, at the preferred column.
    fn move_to(&mut self, row: usize)
        requires
            old(self).wf(),
            row < old(self)@.lines.len(),
        ensures
            final(self).wf(),
            final(self)@ == moved_to(old(self)@, row as int),
    {
        let cell = match self.preferred_cell {
            Some(cell) => cell,
            None => self.cursor_cell(),
        };
        self.preferred_cell = Some(cell);
        self.row = row;
        self.col = boundary_at_cell(self.lines[row].as_str(), cell);
    }

    /// Moves to the row above; says whether there was one.
    pub fn move_up(&mut self) -> (moved: bool)
        requires
            old(self).wf(),
        ensures
            final(self).wf(),
            moved == (old(self)@.row > 0),
            final(self)@ == (if moved {
                moved_to(old(self)@, old(self)@.row - 1)
            } else {
                old(self)@
            }),
    {
        if self.row == 0 {
            return false;
        }
        let row: usize = self.row - 1;
        self.move_to(row);
        true
    }

    /// Moves to the row below; says whether there was one.
    pub fn move_down(&mut self) -> (moved: bool)
        requires
            old(self).wf(),
        ensures
            final(self).wf(),
            moved == (old(self)@.row + 1 < old(self)@.lines.len()),
            final(self)@ == (if moved {
                moved_to(old(self)@, old(self)@.row + 1)
            } else {
                old(self)@
            }),
    {
        if self.row >= self.lines.len() - 1 {
            return false;
        }
        let row: usize = self.row + 1;
        self.move_to(row);
        true
    }

    pub fn home(&mut self)
        requires
            old(self).wf(),
        ensures
            final(self).wf(),
            final(self)@ == (EditorView { col: 0, preferred: None, ..old(self)@ }),
    {
        self.col = 0;
        self.preferred_cell = None;
    }

    pub fn end(&mut self)
        requires
            old(self).wf(),
        ensures
            final(self).wf(),
            final(self)@ == (EditorView {
                col: current(old(self)@).len() as int,
                preferred: None,
                ..old(self)@
            }),
    {
        self.col = strs::chars_of(self.lines[self.row].as_str()).len();
        self.preferred_cell = None;
    }
}

impl Default for InputEditor {
    fn default() -> (editor: InputEditor)
        ensures
            editor.wf(),
            editor@ == blank(),
    {
        InputEditor::new()
    }
}

// ---------------------------------------------------------------------------
// Recalled submissions
// ---------------------------------------------------------------------------

/// Recalled submissions for Up/Down when the cursor is already on the first or
/// last draft line.
#[derive(Clone, Debug, PartialEq, Eq)]
pub struct InputHistory {
    pub entries: Vec<String>,
    /// Index into `entries` while browsing; `None` when editing fresh text.
    pub cursor: Option<usize>,
    /// The fresh text stashed while browsing history.
    pub stash: Option<String>,
}

/// An [`InputHistory`] as a mathematical value.
pub struct HistoryView {
    pub entries: Seq<Seq<char>>,
    pub cursor: Option<usize>,
    pub stash: Option<Seq<char>>,
}

impl View for InputHistory {
    type V = HistoryView;

    open spec fn view(&self) -> HistoryView {
        HistoryView {
            entries: self.entries.deep_view(),
            cursor: self.cursor,
            stash: self.stash.deep_view(),
        }
    }
}

/// The history one step further back, and the text there: the newest entry
/// first, and no further than the oldest.
pub open spec fn older(h: HistoryView, fresh: Seq<char>) -> (HistoryView, Option<Seq<char>>) {
    if h.entries.len() == 0 {
        (h, None)
    } else {
        let at = match h.cursor {
            None => h.entries.len() - 1,
            Some(index) => if index == 0 {
                0
            } else {
                index - 1
            },
        };
        (
            HistoryView {
                entries: h.entries,
                cursor: Some(at as usize),
                stash: if h.cursor is None {
                    Some(fresh)
                } else {
                    h.stash
                },
            },
            Some(h.entries[at]),
        )
    }
}

/// The history one step further on, and the text there: past the newest entry
/// the stashed draft.
pub open spec fn newer(h: HistoryView) -> (HistoryView, Option<Seq<char>>) {
    match h.cursor {
        None => (h, None),
        Some(index) => if index + 1 < h.entries.len() {
            (
                HistoryView { cursor: Some((index + 1) as usize), ..h },
                Some(h.entries[index + 1]),
            )
        } else {
            (
                HistoryView { entries: h.entries, cursor: None, stash: None },
                Some(
                    match h.stash {
                        Some(text) => text,
                        None => Seq::empty(),
                    },
                ),
            )
        },
    }
}

impl InputHistory {
    /// The browsing position names an entry.
    pub closed spec fn wf(&self) -> bool {
        match self@.cursor {
            Some(index) => index < self@.entries.len(),
            None => true,
        }
    }

    pub fn new() -> (history: InputHistory)
        ensures
            history.wf(),
            history@ == (HistoryView { entries: Seq::empty(), cursor: None, stash: None }),
    {
        let history = InputHistory { entries: Vec::new(), cursor: None, stash: None };
        proof {
            assert(history.entries.deep_view() =~= Seq::<Seq<char>>::empty());
        }
        history
    }

    pub fn push(&mut self, text: String)
        ensures
            final(self).wf(),
            final(self)@ == (HistoryView {
                entries: old(self)@.entries.push(text@),
                cursor: None,
                stash: None,
            }),
    {
        self.entries.push(text);
        self.cursor = None;
        self.stash = None;
        proof {
            assert(self.entries.deep_view() =~= old(self)@.entries.push(text@));
        }
    }

    pub fn reset_browse(&mut self)
        ensures
            final(self).wf(),
            final(self)@ == (HistoryView { cursor: None, ..old(self)@ }),
    {
        self.cursor = None;
    }

    /// Moves to an older submission. Always yields text when the list is
    /// non-empty, including when already on the oldest entry.
    pub fn prev(&mut self, current: &str) -> (text: Option<String>)
        requires
            old(self).wf(),
        ensures
            final(self).wf(),
            (final(self)@, text.deep_view()) == older(old(self)@, current@),
    {
        if self.entries.len() == 0 {
            return None;
        }
        let at: usize = match self.cursor {
            None => {
                self.stash = Some(current.to_owned());
                self.entries.len() - 1
            },
            Some(index) => if index == 0 {
                0
            } else {
                index - 1
            },
        };
        self.cursor = Some(at);
        Some(self.entries[at].clone())
    }

    /// Moves toward newer submissions, or restores the stashed draft.
    pub fn next(&mut self) -> (text: Option<String>)
        requires
            old(self).wf(),
        ensures
            final(self).wf(),
            (final(self)@, text.deep_view()) == newer(old(self)@),
    {
        let index = match self.cursor {
            Some(index) => index,
            None => return None,
        };
        if index < self.entries.len() - 1 {
            self.cursor = Some(index + 1);
            Some(self.entries[index + 1].clone())
        } else {
            self.cursor = None;
            let text = match self.stash.take() {
                Some(text) => text,
                None => String::new(),
            };
            Some(text)
        }
    }
}

impl Default for InputHistory {
    fn default() -> (history: InputHistory)
        ensures
            history.wf(),
            history@ == (HistoryView { entries: Seq::empty(), cursor: None, stash: None }),
    {
        InputHistory::new()
    }
}

// ---------------------------------------------------------------------------
// Laws
// ---------------------------------------------------------------------------

/// Breaking a line and erasing backward from there gives the draft and the
/// cursor back.
pub proof fn erasing_undoes_a_break(e: EditorView)
    requires
        sound(e),
    ensures
        erased(broken(e)).lines == e.lines,
        erased(broken(e)).row == e.row,
        erased(broken(e)).col == e.col,
{
    let b = broken(e);
    let back = erased(b);
    assert(b.lines[e.row] == current(e).take(e.col));
    assert(b.lines[e.row + 1] == current(e).skip(e.col));
    assert(current(e).take(e.col) + current(e).skip(e.col) =~= current(e));
    assert(back.lines =~= e.lines);
}

/// Deleting forward from the end of a broken line joins it again.
pub proof fn deleting_undoes_a_break(e: EditorView)
    requires
        sound(e),
    ensures
        deleted(
            EditorView { row: e.row, col: e.col, ..broken(e) },
        ).lines == e.lines,
{
    let b = EditorView { row: e.row, col: e.col, ..broken(e) };
    assert(b.lines[e.row] == current(e).take(e.col));
    assert(b.lines[e.row + 1] == current(e).skip(e.col));
    assert(current(e).take(e.col) + current(e).skip(e.col) =~= current(e));
    assert(deleted(b).lines =~= e.lines);
}

/// Moving never changes the draft.
pub proof fn moving_keeps_the_draft(e: EditorView, row: int)
    ensures
        draft(moved_left(e)) == draft(e),
        draft(moved_right(e)) == draft(e),
        draft(moved_to(e, row)) == draft(e),
{
}

/// Browsing back from a fresh draft and forward again brings the draft back.
pub proof fn browsing_restores_the_draft(h: HistoryView, fresh: Seq<char>)
    requires
        h.cursor is None,
        0 < h.entries.len() <= usize::MAX,
    ensures
        older(h, fresh).1 == Some(h.entries.last()),
        newer(older(h, fresh).0).1 == Some(fresh),
        newer(older(h, fresh).0).0.cursor is None,
        newer(older(h, fresh).0).0.entries == h.entries,
{
}

/// Text without control characters is kept as it is when it becomes the draft.
pub proof fn filling_keeps_clean_text(text: Seq<char>)
    requires
        forall|i: int| 0 <= i < text.len() ==> text[i] == '\n' || !is_control(#[trigger] text[i]),
    ensures
        draft(filled(text)) == text,
{
    let parts = split_on(text, '\n');
    split_parts_clean(text);
    let lines = filled(text).lines;
    assert forall|i: int| 0 <= i < parts.len() implies lines[i] == parts[i] by {
        assert(tidy(parts[i]));
        sanitized_tidy_is_same(parts[i]);
    }
    assert(lines =~= parts);
    reveal_strlit("\n");
    assert("\n"@ =~= seq!['\n']);
    strs::join_inverts_split(text, '\n');
}

proof fn sanitized_tidy_is_same(line: Seq<char>)
    requires
        tidy(line),
    ensures
        sanitized(line) == line,
    decreases line.len(),
{
    if line.len() > 0 {
        let rest = line.drop_last();
        assert forall|i: int| 0 <= i < rest.len() implies !is_control(#[trigger] rest[i]) by {
            assert(rest[i] == line[i]);
        }
        sanitized_tidy_is_same(rest);
        assert(!is_control(line[line.len() - 1]));
        assert(rest.push(line.last()) =~= line);
    } else {
        assert(sanitized(line) =~= line);
    }
}

proof fn split_parts_clean(text: Seq<char>)
    requires
        forall|i: int| 0 <= i < text.len() ==> text[i] == '\n' || !is_control(#[trigger] text[i]),
    ensures
        forall|i: int|
            0 <= i < split_on(text, '\n').len() ==> tidy(#[trigger] split_on(text, '\n')[i]),
    decreases text.len(),
{
    if text.len() > 0 {
        let rest = text.drop_last();
        assert forall|i: int| 0 <= i < rest.len() implies rest[i] == '\n' || !is_control(
            #[trigger] rest[i],
        ) by {
            assert(rest[i] == text[i]);
        }
        split_parts_clean(rest);
        strs::split_on_nonempty(rest, '\n');
        let before = split_on(rest, '\n');
        let all = split_on(text, '\n');
        assert(text[text.len() - 1] == '\n' || !is_control(text[text.len() - 1]));
        assert forall|i: int| 0 <= i < all.len() implies tidy(#[trigger] all[i]) by {
            if i < before.len() - 1 {
                assert(all[i] == before[i]);
            } else if i < before.len() && text.last() == '\n' {
                assert(all[i] == before[i]);
            } else if i < before.len() {
                assert(all[i] == before.last().push(text.last()));
                assert(tidy(before[before.len() - 1]));
            }
        }
    }
}

/// What stands before the cursor.
pub open spec fn text_before(e: EditorView) -> Seq<char> {
    join(e.lines.take(e.row).push(current(e).take(e.col)), "\n"@)
}

/// What stands behind the cursor.
pub open spec fn text_behind(e: EditorView) -> Seq<char> {
    join(seq![current(e).skip(e.col)] + e.lines.skip(e.row + 1), "\n"@)
}

/// Whether the cursor stands somewhere in the draft.
pub open spec fn placed(e: EditorView) -> bool {
    0 <= e.row < e.lines.len() && 0 <= e.col <= e.lines[e.row].len()
}

/// The draft is what stands before the cursor and what stands behind it.
pub proof fn the_cursor_parts_the_draft(e: EditorView)
    requires
        placed(e),
    ensures
        draft(e) == text_before(e) + text_behind(e),
{
    let line = current(e);
    let above = e.lines.take(e.row);
    let below = e.lines.skip(e.row + 1);
    strs::joining_goes_part_by_part(above, line.take(e.col), line.skip(e.col), below, "\n"@);
    assert(line.take(e.col) + line.skip(e.col) =~= line);
    assert(above.push(line) + below =~= e.lines);
}

proof fn changed_line(e: EditorView, left: Seq<char>, right: Seq<char>)
    requires
        placed(e),
    ensures
        join(e.lines.update(e.row, left + right), "\n"@) == join(
            e.lines.take(e.row).push(left),
            "\n"@,
        ) + join(seq![right] + e.lines.skip(e.row + 1), "\n"@),
{
    let above = e.lines.take(e.row);
    let below = e.lines.skip(e.row + 1);
    strs::joining_goes_part_by_part(above, left, right, below, "\n"@);
    assert(above.push(left + right) + below =~= e.lines.update(e.row, left + right));
}

proof fn last_part_grows(parts: Seq<Seq<char>>, last: Seq<char>, more: Seq<char>, glue: Seq<char>)
    ensures
        join(parts.push(last + more), glue) == join(parts.push(last), glue) + more,
{
    assert(parts.push(last + more).drop_last() =~= parts);
    assert(parts.push(last).drop_last() =~= parts);
    assert(join(parts.push(last + more), glue) =~= join(parts.push(last), glue) + more);
}

proof fn first_part_grows(more: Seq<char>, first: Seq<char>, parts: Seq<Seq<char>>, glue: Seq<char>)
    ensures
        join(seq![more + first] + parts, glue) == more + join(seq![first] + parts, glue),
    decreases parts.len(),
{
    let whole = seq![more + first] + parts;
    let plain = seq![first] + parts;
    if parts.len() > 0 {
        first_part_grows(more, first, parts.drop_last(), glue);
        assert(whole.drop_last() =~= seq![more + first] + parts.drop_last());
        assert(plain.drop_last() =~= seq![first] + parts.drop_last());
    }
    assert(join(whole, glue) =~= more + join(plain, glue));
}

/// Typing puts the character where the cursor is, and what stood before and
/// behind it stays; a control character is not put anywhere.
pub proof fn typing_inserts_at_the_cursor(e: EditorView, ch: char)
    requires
        placed(e),
    ensures
        !is_control(ch) ==> draft(typed(e, ch)) == text_before(e).push(ch) + text_behind(e),
        is_control(ch) ==> draft(typed(e, ch)) == draft(e),
        !is_control(ch) ==> text_before(put(e, ch)) == text_before(e).push(ch) && text_behind(
            put(e, ch),
        ) == text_behind(e),
{
    if !is_control(ch) {
        let line = current(e);
        let above = e.lines.take(e.row);
        let left = line.take(e.col);
        let right = line.skip(e.col);
        assert(line.insert(e.col, ch) =~= left.push(ch) + right);
        changed_line(e, left.push(ch), right);
        last_part_grows(above, left, seq![ch], "\n"@);
        assert(left + seq![ch] =~= left.push(ch));
        assert(text_before(e) + seq![ch] =~= text_before(e).push(ch));
        let next = put(e, ch);
        assert(current(next).take(next.col) =~= left.push(ch));
        assert(current(next).skip(next.col) =~= right);
        assert(next.lines.take(next.row) =~= above);
        assert(next.lines.skip(next.row + 1) =~= e.lines.skip(e.row + 1));
    }
}

/// A line break goes where the cursor is, and the cursor behind it.
pub proof fn breaks_go_to_the_cursor(e: EditorView)
    requires
        placed(e),
    ensures
        draft(broken(e)) == text_before(e).push('\n') + text_behind(e),
        text_before(broken(e)) == text_before(e).push('\n'),
        text_behind(broken(e)) == text_behind(e),
        placed(broken(e)),
{
    reveal_strlit("\n");
    let b = broken(e);
    let line = current(e);
    let above = e.lines.take(e.row);
    let below = e.lines.skip(e.row + 1);
    let first = above.push(line.take(e.col));
    let second = seq![line.skip(e.col)] + below;
    assert(b.lines =~= first + second);
    strs::joining_in_two_batches(first, second, "\n"@);
    assert("\n"@ =~= seq!['\n']);
    assert(text_before(e) + "\n"@ =~= text_before(e).push('\n'));
    assert(current(b) == line.skip(e.col));
    assert(b.lines.take(b.row) =~= first);
    assert(b.lines.skip(b.row + 1) =~= below);
    assert(current(b).skip(0) =~= current(b));
    let opened = first.push(Seq::<char>::empty());
    assert(current(b).take(0) =~= Seq::<char>::empty());
    assert(opened.drop_last() =~= first);
    assert(join(opened, "\n"@) =~= join(first, "\n"@) + "\n"@ + Seq::<char>::empty());
    assert(text_before(b) =~= text_before(e).push('\n'));
}

/// What is pasted appears at the cursor as it was copied, line breaks included.
pub proof fn pasting_inserts_at_the_cursor(e: EditorView, value: Seq<char>)
    requires
        placed(e),
        forall|i: int|
            0 <= i < value.len() ==> value[i] == '\n' || !is_control(#[trigger] value[i]),
    ensures
        draft(pasted(e, value)) == text_before(e) + value + text_behind(e),
{
    pasting_goes_on(e, value);
    the_cursor_parts_the_draft(put_all(e, value));
}

proof fn pasting_goes_on(e: EditorView, value: Seq<char>)
    requires
        placed(e),
        forall|i: int|
            0 <= i < value.len() ==> value[i] == '\n' || !is_control(#[trigger] value[i]),
    ensures
        placed(put_all(e, value)),
        text_before(put_all(e, value)) == text_before(e) + value,
        text_behind(put_all(e, value)) == text_behind(e),
    decreases value.len(),
{
    if value.len() == 0 {
        assert(text_before(e) + value =~= text_before(e));
    } else {
        let rest = value.drop_last();
        assert forall|i: int| 0 <= i < rest.len() implies rest[i] == '\n' || !is_control(
            #[trigger] rest[i],
        ) by {
            assert(rest[i] == value[i]);
        }
        pasting_goes_on(e, rest);
        let before = put_all(e, rest);
        let ch = value[value.len() - 1];
        assert(ch == '\n' || !is_control(ch));
        if ch == '\n' {
            breaks_go_to_the_cursor(before);
        } else {
            typing_inserts_at_the_cursor(before, ch);
        }
        assert((text_before(e) + rest).push(ch) =~= text_before(e) + value);
    }
}

/// Erasing backward takes the cluster that ends before the cursor, at the
/// beginning of a line the break before it, and at the beginning of the draft
/// nothing.
pub proof fn erasing_takes_what_is_before(e: EditorView)
    requires
        placed(e),
        0 <= boundary_before(current(e), e.col) <= e.col || e.col == 0,
    ensures
        e.col > 0 ==> draft(erased(e)) == text_before(e).take(
            text_before(e).len() - (e.col - boundary_before(current(e), e.col)),
        ) + text_behind(e),
        e.col == 0 && e.row > 0 ==> text_before(e).last() == '\n' && draft(erased(e))
            == text_before(e).drop_last() + text_behind(e),
        e.col == 0 && e.row == 0 ==> draft(erased(e)) == draft(e),
{
    reveal_strlit("\n");
    let line = current(e);
    let above = e.lines.take(e.row);
    let below = e.lines.skip(e.row + 1);
    if e.col > 0 {
        let at = boundary_before(line, e.col);
        changed_line(e, line.take(at), line.skip(e.col));
        last_part_grows(above, line.take(at), line.subrange(at, e.col), "\n"@);
        assert(line.take(at) + line.subrange(at, e.col) =~= line.take(e.col));
        assert(text_before(e).take(text_before(e).len() - (e.col - at)) =~= join(
            above.push(line.take(at)),
            "\n"@,
        ));
    } else if e.row > 0 {
        let upper = e.lines[e.row - 1];
        let higher = e.lines.take(e.row - 1);
        let lines = merged(e.lines, e.row - 1);
        assert(above =~= higher.push(upper));
        assert(lines =~= higher.push(upper + line) + below);
        strs::joining_goes_part_by_part(higher, upper, line, below, "\n"@);
        assert(line.skip(0) =~= line);
        assert(line.take(0) =~= Seq::<char>::empty());
        let opened = above.push(Seq::<char>::empty());
        assert(opened.drop_last() =~= above);
        assert(text_before(e) =~= join(above, "\n"@) + "\n"@ + Seq::<char>::empty());
        assert(text_before(e).drop_last() =~= join(above, "\n"@));
    }
}

/// Deleting forward takes the cluster at the cursor, at the end of a line the
/// break behind it, and at the end of the draft nothing.
pub proof fn deleting_takes_what_is_behind(e: EditorView)
    requires
        placed(e),
        e.col <= boundary_after(current(e), e.col) <= current(e).len() || e.col == current(e).len(),
    ensures
        e.col < current(e).len() ==> draft(deleted(e)) == text_before(e) + text_behind(e).skip(
            boundary_after(current(e), e.col) - e.col,
        ),
        e.col == current(e).len() && e.row + 1 < e.lines.len() ==> text_behind(e)[0] == '\n'
            && draft(deleted(e)) == text_before(e) + text_behind(e).skip(1),
        e.col == current(e).len() && e.row + 1 == e.lines.len() ==> draft(deleted(e)) == draft(e),
{
    reveal_strlit("\n");
    let line = current(e);
    let above = e.lines.take(e.row);
    let below = e.lines.skip(e.row + 1);
    if e.col < line.len() {
        let to = boundary_after(line, e.col);
        changed_line(e, line.take(e.col), line.skip(to));
        first_part_grows(line.subrange(e.col, to), line.skip(to), below, "\n"@);
        assert(line.subrange(e.col, to) + line.skip(to) =~= line.skip(e.col));
        assert(text_behind(e).skip(to - e.col) =~= join(seq![line.skip(to)] + below, "\n"@));
    } else if e.row + 1 < e.lines.len() {
        let lower = e.lines[e.row + 1];
        let rest = e.lines.skip(e.row + 2);
        let lines = merged(e.lines, e.row);
        assert(lines =~= above.push(line + lower) + rest);
        assert(below =~= seq![lower] + rest);
        strs::joining_goes_part_by_part(above, line, lower, rest, "\n"@);
        assert(line.take(e.col) =~= line);
        assert(line.skip(e.col) =~= Seq::<char>::empty());
        let none = seq![Seq::<char>::empty()];
        strs::joining_in_two_batches(none, below, "\n"@);
        assert(text_behind(e) =~= "\n"@ + join(below, "\n"@));
        assert(text_behind(e).skip(1) =~= join(below, "\n"@));
    }
}

/// Whether one of the clusters begins at `start`, ends at `end` and holds the
/// character at `at`.
pub open spec fn holds_cluster(items: Seq<ClusterView>, start: int, at: int, end: int) -> bool {
    exists|k: int|
        0 <= k < items.len() && #[trigger] content(items.take(k)).len() == start && content(
            items.take(k + 1),
        ).len() == end && start <= at < end
}

/// The bounds around a character are those of the cluster that holds it.
pub proof fn bounds_are_those_of_a_cluster(items: Seq<ClusterView>, at: int)
    requires
        0 <= at < content(items).len(),
    ensures
        holds_cluster(items, cluster_start(items, at), at, cluster_end(items, at)),
    decreases items.len(),
{
    if items.len() > 0 {
        let before = items.drop_last();
        if content(before).len() <= at {
            let k = items.len() - 1;
            assert(items.take(k) =~= before);
            assert(items.take(k + 1) =~= items);
        } else {
            bounds_are_those_of_a_cluster(before, at);
            let start = cluster_start(before, at);
            let end = cluster_end(before, at);
            let k = choose|k: int|
                0 <= k < before.len() && #[trigger] content(before.take(k)).len() == start
                    && content(before.take(k + 1)).len() == end && start <= at < end;
            assert(items.take(k) =~= before.take(k));
            assert(items.take(k + 1) =~= before.take(k + 1));
        }
    }
}

/// Moving by one cluster to either side ends at a bound next to the cursor: one
/// step left passes the cluster before it, one step right the cluster behind it,
/// and past the ends of a line the cursor goes to the line above or below.
pub proof fn moving_passes_one_cluster(e: EditorView)
    requires
        placed(e),
        content(measured(current(e))) == current(e),
    ensures
        e.col > 0 ==> moved_left(e).row == e.row && holds_cluster(
            measured(current(e)),
            moved_left(e).col,
            e.col - 1,
            cluster_end(measured(current(e)), e.col - 1),
        ),
        e.col < current(e).len() ==> moved_right(e).row == e.row && holds_cluster(
            measured(current(e)),
            cluster_start(measured(current(e)), e.col),
            e.col,
            moved_right(e).col,
        ),
        e.col == 0 && e.row > 0 ==> moved_left(e).row == e.row - 1 && moved_left(e).col
            == e.lines[e.row - 1].len(),
        e.col == current(e).len() && e.row + 1 < e.lines.len() ==> moved_right(e).row == e.row + 1
            && moved_right(e).col == 0,
{
    if e.col > 0 {
        bounds_are_those_of_a_cluster(measured(current(e)), e.col - 1);
    }
    if e.col < current(e).len() {
        bounds_are_those_of_a_cluster(measured(current(e)), e.col);
    }
}

/// Going back through what was sent shows the entries from the last to the
/// first, where it stays; coming forward shows them in turn again.
pub proof fn browsing_goes_entry_by_entry(h: HistoryView, fresh: Seq<char>, index: usize)
    requires
        h.cursor == Some(index),
        index < h.entries.len() <= usize::MAX,
    ensures
        index > 0 ==> older(h, fresh).1 == Some(h.entries[index - 1]),
        index == 0 ==> older(h, fresh).1 == Some(h.entries[0]),
        index + 1 < h.entries.len() ==> newer(h).1 == Some(h.entries[index + 1]),
        older(h, fresh).0.stash == h.stash,
        index > 0 ==> newer(older(h, fresh).0).0 == h,
{
}

/// Filling the editor drops control characters and nothing else.
pub proof fn filling_drops_control_characters(first: Seq<char>, second: Seq<char>, ch: char)
    ensures
        sanitized(first + second) == sanitized(first) + sanitized(second),
        !is_control(ch) ==> sanitized(seq![ch]) == seq![ch],
        is_control(ch) ==> sanitized(seq![ch]).len() == 0,
    decreases second.len(),
{
    reveal_with_fuel(sanitized, 2);
    assert(seq![ch].drop_last() =~= Seq::<char>::empty());
    assert(Seq::<char>::empty().push(ch) =~= seq![ch]);
    if second.len() == 0 {
        assert(first + second =~= first);
        assert(sanitized(first) + sanitized(second) =~= sanitized(first));
    } else {
        assert((first + second).drop_last() =~= first + second.drop_last());
        filling_drops_control_characters(first, second.drop_last(), ch);
        assert(sanitized(first + second) =~= sanitized(first) + sanitized(second));
    }
}

} // verus!
