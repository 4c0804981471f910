//! A whole answer as display rows.

use vstd::prelude::*;

use super::blocks::{classified, classify, run_len, run_length, LogicalLine, LogicalView};
use super::flow::{
    glyphs_of, glyphs_text, rows_text, span_glyphs, wrap_spans, wrapped_spans,
    wrapping_keeps_text_and_style, GlyphView,
};
use super::inline::{accent, accent_style, bar, bar_style, parse_prose, prose_spans};
use super::style::{
    code_row, plain_row, row_agrees, span, styled_row, BlockRole, ProjectedRow, ProseSpan,
    spans_text, RoleView, RowView, SpanView,
};
use super::table::{flow, grid, project_table, style_rows, table, table_flow, table_grid};
use crate::app::text;
use crate::app::text::{content, measured, wrapped, ClusterView};
use crate::strs;
use crate::strs::{concat, decimal, leading_white, numeral_value, repeated, trim};

verus! {

/// Blank rows between two blocks of different structure.
pub const GAP_BLOCK: usize = 1;

// ---------------------------------------------------------------------------
// Structure
// ---------------------------------------------------------------------------

/// Coarse structural category of a role: a fence or a table reads as one block.
#[derive(Clone, Copy, Debug, PartialEq, Eq, Structural)]
pub enum BlockCategory {
    Plain,
    Heading,
    Fence,
    Table,
}

pub open spec fn category(role: RoleView) -> BlockCategory {
    match role {
        RoleView::Plain => BlockCategory::Plain,
        RoleView::Heading => BlockCategory::Heading,
        RoleView::FenceEdge | RoleView::FenceBody { .. } => BlockCategory::Fence,
        RoleView::TableHeader | RoleView::TableDelim | RoleView::TableBody => BlockCategory::Table,
    }
}

pub fn block_category(role: &BlockRole) -> (result: BlockCategory)
    ensures
        result == category(role.deep_view()),
{
    match role {
        BlockRole::Plain => BlockCategory::Plain,
        BlockRole::Heading => BlockCategory::Heading,
        BlockRole::FenceEdge | BlockRole::FenceBody { .. } => BlockCategory::Fence,
        BlockRole::TableHeader
        | BlockRole::TableDelim
        | BlockRole::TableBody => BlockCategory::Table,
    }
}

/// The breathing rows between a block and the one before it: none at the very
/// beginning and within one category.
pub open spec fn block_gap(prev: Option<RoleView>, cur: RoleView) -> Option<usize> {
    match prev {
        Some(prev) => if category(prev) == category(cur) {
            None
        } else {
            Some(GAP_BLOCK)
        },
        None => None,
    }
}

pub fn block_gap_rows(prev: &Option<BlockRole>, cur: &BlockRole) -> (gap: Option<usize>)
    ensures
        gap == block_gap(prev.deep_view(), cur.deep_view()),
{
    match prev {
        Some(prev) => if block_category(prev) == block_category(cur) {
            None
        } else {
            Some(GAP_BLOCK)
        },
        None => None,
    }
}

/// The rows with the gap before the next block. A blank line that the author
/// wrote, above or as the next line, is not amplified, and nothing precedes the
/// first row.
pub open spec fn with_gap(
    rows: Seq<RowView>,
    prev: Option<RoleView>,
    next: LogicalView,
) -> Seq<RowView> {
    match block_gap(prev, next.role) {
        Some(gap) => if rows.len() > 0 && rows.last().text.len() > 0 && next.text.len() > 0 {
            rows + Seq::new(gap as nat, |i: int| plain_row(Seq::empty()))
        } else {
            rows
        },
        None => rows,
    }
}

/// The end of the table that begins at `start`.
pub open spec fn table_end(lines: Seq<LogicalView>, start: int) -> int
    decreases lines.len() - start,
{
    if start + 1 < lines.len() && category(lines[start + 1].role) == BlockCategory::Table {
        table_end(lines, start + 1)
    } else {
        start + 1
    }
}

/// End (exclusive) of the contiguous table run starting at `start`.
fn table_run_end(lines: &Vec<LogicalLine>, start: usize) -> (end: usize)
    requires
        start < lines.len(),
    ensures
        end == table_end(lines.deep_view(), start as int),
        start < end <= lines.len(),
{
    let ghost all = lines.deep_view();
    let mut end: usize = start + 1;
    while end < lines.len() && block_category(&lines[end].role) == BlockCategory::Table
        invariant
            start < end <= lines.len(),
            all == lines.deep_view(),
            table_end(all, start as int) == table_end(all, end - 1),
        decreases lines.len() - end,
    {
        assert(all[end as int].role == lines@[end as int].role.deep_view());
        end += 1;
    }
    proof {
        if end < lines.len() {
            assert(all[end as int].role == lines@[end as int].role.deep_view());
        }
    }
    end
}

// ---------------------------------------------------------------------------
// Code line numbers
// ---------------------------------------------------------------------------

/// The last fence edge above line `i`, or -1.
pub open spec fn last_edge(lines: Seq<LogicalView>, i: int) -> int
    decreases i,
{
    if i <= 0 {
        -1
    } else if lines[i - 1].role == RoleView::FenceEdge {
        i - 1
    } else {
        last_edge(lines, i - 1)
    }
}

/// The first fence edge at or below line `i`, or the end of the lines.
pub open spec fn next_edge(lines: Seq<LogicalView>, i: int) -> int
    decreases lines.len() - i,
{
    if i >= lines.len() {
        lines.len() as int
    } else if lines[i].role == RoleView::FenceEdge {
        i
    } else {
        next_edge(lines, i + 1)
    }
}

proof fn next_edge_range(lines: Seq<LogicalView>, i: int)
    requires
        0 <= i <= lines.len(),
    ensures
        i <= next_edge(lines, i) <= lines.len(),
    decreases lines.len() - i,
{
    if i < lines.len() && lines[i].role != RoleView::FenceEdge {
        next_edge_range(lines, i + 1);
    }
}

/// The text behind as many blanks as it takes to fill `len` characters.
pub open spec fn right_aligned(text: Seq<char>, len: nat) -> Seq<char> {
    if text.len() >= len {
        text
    } else {
        repeated(' ', (len - text.len()) as nat) + text
    }
}

/// The line-number slot of a code line: its number within its fence, aligned
/// with the largest number there.
pub open spec fn code_slot(lines: Seq<LogicalView>, i: int) -> Option<Seq<char>> {
    let edge = last_edge(lines, i);
    if !(lines[i].role is FenceBody) || edge < 0 {
        None
    } else {
        let count = next_edge(lines, i) - edge - 1;
        Some(right_aligned(decimal((i - edge) as nat), decimal(count as nat).len()))
    }
}

/// Aligns a numeral to the right.
fn align_right(numeral: &str, len: usize) -> (text: String)
    ensures
        text@ == right_aligned(numeral@, len as nat),
{
    let digits = strs::chars_of(numeral).len();
    if digits >= len {
        return numeral.to_owned();
    }
    let mut text = strs::repeat_char(' ', len - digits);
    text.push_str(numeral);
    text
}

/// The line-number slots of all lines.
fn code_slots(lines: &Vec<LogicalLine>) -> (slots: Vec<Option<String>>)
    ensures
        slots.len() == lines.len(),
        forall|k: int|
            0 <= k < lines.len() ==> (#[trigger] slots@[k]).deep_view() == code_slot(
                lines.deep_view(),
                k,
            ),
{
    let ghost all = lines.deep_view();
    let mut slots: Vec<Option<String>> = Vec::new();
    let mut edge: Option<usize> = None;
    let mut end: usize = 0;
    let mut i: usize = 0;
    while i < lines.len()
        invariant
            i <= lines.len(),
            all == lines.deep_view(),
            slots.len() == i,
            match edge {
                Some(p) => last_edge(all, i as int) == p && p < i && next_edge(all, i as int) == end
                    && i <= end <= lines.len(),
                None => last_edge(all, i as int) == -1,
            },
            forall|k: int|
                0 <= k < i ==> (#[trigger] slots@[k]).deep_view() == code_slot(all, k),
        decreases lines.len() - i,
    {
        assert(all[i as int].role == lines@[i as int].role.deep_view());
        match &lines[i].role {
            BlockRole::FenceEdge => {
                slots.push(None);
                edge = Some(i);
                end = i + 1;
                while end < lines.len() && !matches!(lines[end].role, BlockRole::FenceEdge)
                    invariant
                        i < end <= lines.len(),
                        all == lines.deep_view(),
                        next_edge(all, i + 1) == next_edge(all, end as int),
                    decreases lines.len() - end,
                {
                    assert(all[end as int].role == lines@[end as int].role.deep_view());
                    end += 1;
                }
                proof {
                    if end < lines.len() {
                        assert(all[end as int].role == lines@[end as int].role.deep_view());
                    }
                }
            },
            BlockRole::FenceBody { lang } => {
                match edge {
                    Some(p) => {
                        let digits = strs::chars_of(strs::number((end - p - 1) as u64).as_str()).len();
                        let numeral = strs::number((i - p) as u64);
                        slots.push(Some(align_right(numeral.as_str(), digits)));
                    },
                    None => {
                        slots.push(None);
                    },
                }
            },
            _ => {
                slots.push(None);
            },
        }
        proof {
            assert(slots@[i as int].deep_view() == code_slot(all, i as int));
            next_edge_range(all, i as int + 1);
        }
        i += 1;
    }
    slots
}

// ---------------------------------------------------------------------------
// Rows of single lines
// ---------------------------------------------------------------------------

/// The spans of a fence edge: indent and marker run dimmed, a language tag
/// accented.
pub open spec fn edge_spans(text: Seq<char>) -> Seq<SpanView> {
    let indent = text.take(leading_white(text) as int);
    let rest = text.skip(leading_white(text) as int);
    let run = if rest.len() > 0 && (rest[0] == '`' || rest[0] == '~') {
        run_len(rest, rest[0]) as int
    } else {
        0
    };
    let tail = rest.skip(run);
    let lead = if indent.len() == 0 {
        Seq::empty()
    } else {
        seq![span(indent, bar_style())]
    };
    let marked = lead.push(span(rest.take(run), bar_style()));
    if tail.len() == 0 {
        marked
    } else if trim(tail).len() == 0 {
        marked.push(span(tail, bar_style()))
    } else {
        marked.push(span(tail, accent_style()))
    }
}

fn bake_edge(text: &str) -> (spans: Vec<ProseSpan>)
    ensures
        spans.deep_view() == edge_spans(text@),
{
    let chars = strs::chars_of(text);
    let cut = strs::skip_white(&chars);
    let ghost rest = text@.skip(cut as int);
    let mut run: usize = 0;
    if cut < chars.len() && (chars[cut] == '`' || chars[cut] == '~') {
        run = run_length(&chars, cut, chars[cut]);
    }
    proof {
        assert(chars@.skip(cut as int) =~= rest);
        if rest.len() > 0 {
            assert(rest[0] == chars@[cut as int]);
        }
    }
    let mut spans: Vec<ProseSpan> = Vec::new();
    if cut > 0 {
        spans.push(ProseSpan::new(strs::string_of(&chars, 0, cut), bar()));
    }
    let marker = strs::string_of(&chars, cut, cut + run);
    let tail = strs::string_of(&chars, cut + run, chars.len());
    proof {
        assert(chars@.subrange(0, cut as int) =~= text@.take(cut as int));
        assert(marker@ =~= rest.take(run as int));
        assert(tail@ =~= rest.skip(run as int));
    }
    spans.push(ProseSpan::new(marker, bar()));
    let ghost marked = spans.deep_view();
    if !tail.as_str().is_empty() {
        let style = if strs::trimmed(tail.as_str()).as_str().is_empty() {
            bar()
        } else {
            accent()
        };
        let item = ProseSpan::new(tail, style);
        spans.push(item);
        proof {
            assert(spans.deep_view() =~= marked.push(item.deep_view()));
        }
    }
    proof {
        assert(spans.deep_view() =~= edge_spans(text@));
    }
    spans
}

/// The rows of a code line: its wrapped text, numbered on the first row.
pub open spec fn code_rows(
    text: Seq<char>,
    lang: Seq<char>,
    slot: Option<Seq<char>>,
    width: nat,
) -> Seq<RowView> {
    let gutter = match slot {
        Some(slot) => slot.len() + 2,
        None => 2,
    };
    let left = if width > gutter {
        (width - gutter) as nat
    } else {
        1
    };
    let rows = wrapped(text, left);
    Seq::new(
        rows.len(),
        |k: int|
            code_row(
                rows[k],
                lang,
                match slot {
                    Some(slot) => Some(
                        if k == 0 {
                            slot
                        } else {
                            repeated(' ', slot.len())
                        },
                    ),
                    None => None,
                },
            ),
    )
}

fn project_code(text: &str, lang: &str, slot: &Option<String>, width: usize) -> (rows: Vec<
    ProjectedRow,
>)
    ensures
        rows.deep_view() == code_rows(text@, lang@, slot.deep_view(), width as nat),
{
    let ghost expected = code_rows(text@, lang@, slot.deep_view(), width as nat);
    let slot_len: usize = match slot {
        Some(slot) => strs::chars_of(slot.as_str()).len(),
        None => 0,
    };
    let left: usize = if width > 2 && width - 2 > slot_len {
        width - 2 - slot_len
    } else {
        1
    };
    let texts = text::wrap(text, left);
    let ghost wraps = texts.deep_view();
    let mut rows: Vec<ProjectedRow> = Vec::new();
    let mut k: usize = 0;
    while k < texts.len()
        invariant
            k <= texts.len(),
            wraps == texts.deep_view(),
            wraps == wrapped(text@, left as nat),
            slot_len == (match slot {
                Some(slot) => slot@.len(),
                None => 0,
            }),
            left == (if width > slot_len + 2 {
                width - (slot_len + 2)
            } else {
                1
            }),
            expected == code_rows(text@, lang@, slot.deep_view(), width as nat),
            rows.len() == k,
            forall|j: int| 0 <= j < k ==> (#[trigger] rows@[j]).deep_view() == expected[j],
        decreases texts.len() - k,
    {
        let row_slot = match slot {
            Some(slot) => if k == 0 {
                Some(slot.clone())
            } else {
                Some(strs::repeat_char(' ', slot_len))
            },
            None => None,
        };
        let row = ProjectedRow::code(texts[k].clone(), lang.to_owned(), row_slot);
        proof {
            assert(wraps[k as int] == texts@[k as int]@);
            assert(row.deep_view() == expected[k as int]);
        }
        rows.push(row);
        k += 1;
    }
    proof {
        assert(rows.deep_view() =~= expected);
    }
    rows
}

/// The rows of one line outside of tables.
pub open spec fn line_rows(lines: Seq<LogicalView>, i: int, width: nat) -> Seq<RowView> {
    let line = lines[i];
    match line.role {
        RoleView::FenceBody { lang } => code_rows(line.text, lang, code_slot(lines, i), width),
        RoleView::FenceEdge => wrapped_spans(edge_spans(line.text), width).map_values(
            |s: Seq<SpanView>| styled_row(line.role, s),
        ),
        _ => wrapped_spans(prose_spans(line.text), width).map_values(
            |s: Seq<SpanView>| styled_row(line.role, s),
        ),
    }
}

// ---------------------------------------------------------------------------
// The whole answer
// ---------------------------------------------------------------------------

/// The rows from line `i` on, behind those already laid out.
pub open spec fn rows_from(
    lines: Seq<LogicalView>,
    i: int,
    prev: Option<RoleView>,
    rows: Seq<RowView>,
    width: nat,
) -> Seq<RowView>
    decreases lines.len() - i,
    via table_end_advances
{
    if i < 0 || i >= lines.len() {
        rows
    } else {
        let role = lines[i].role;
        let spaced = with_gap(rows, prev, lines[i]);
        if role == RoleView::TableHeader {
            let end = table_end(lines, i);
            rows_from(lines, end, Some(role), spaced + table(lines.subrange(i, end), width), width)
        } else {
            rows_from(lines, i + 1, Some(role), spaced + line_rows(lines, i, width), width)
        }
    }
}

#[via_fn]
proof fn table_end_advances(
    lines: Seq<LogicalView>,
    i: int,
    prev: Option<RoleView>,
    rows: Seq<RowView>,
    width: nat,
) {
    if 0 <= i < lines.len() {
        table_end_range(lines, i);
    }
}

pub proof fn table_end_range(lines: Seq<LogicalView>, start: int)
    requires
        0 <= start < lines.len(),
    ensures
        start < table_end(lines, start) <= lines.len(),
    decreases lines.len() - start,
{
    if start + 1 < lines.len() && category(lines[start + 1].role) == BlockCategory::Table {
        table_end_range(lines, start + 1);
    }
}

/// The display rows of an answer; none at all in zero cells.
pub open spec fn projected_answer(answer: Seq<char>, width: nat) -> Seq<RowView> {
    if width == 0 {
        Seq::empty()
    } else {
        rows_from(classified(answer), 0, None, Seq::empty(), width)
    }
}

/// Every row of a projection carries the text its spans say.
pub open spec fn rows_agree(rows: Seq<RowView>) -> bool {
    forall|i: int| 0 <= i < rows.len() ==> row_agrees(#[trigger] rows[i])
}

/// Wraps an answer into display rows at `width`, baking styled spans into each
/// fragment.
pub fn project_answer(answer: &str, width: usize) -> (rows: Vec<ProjectedRow>)
    ensures
        rows.deep_view() == projected_answer(answer@, width as nat),
        rows_agree(rows.deep_view()),
{
    let mut rows: Vec<ProjectedRow> = Vec::new();
    if width == 0 {
        proof {
            assert(rows.deep_view() =~= Seq::<RowView>::empty());
        }
        return rows;
    }
    let lines = classify(answer);
    let ghost all = lines.deep_view();
    let ghost max = width as nat;
    let slots = code_slots(&lines);
    let mut prev: Option<BlockRole> = None;
    let mut i: usize = 0;
    proof {
        assert(rows.deep_view() =~= Seq::<RowView>::empty());
    }
    while i < lines.len()
        invariant
            i <= lines.len(),
            width > 0,
            max == width,
            all == lines.deep_view(),
            all == classified(answer@),
            slots.len() == lines.len(),
            forall|k: int|
                0 <= k < lines.len() ==> (#[trigger] slots@[k]).deep_view() == code_slot(all, k),
            rows_from(all, i as int, prev.deep_view(), rows.deep_view(), max) == rows_from(
                all,
                0,
                None,
                Seq::empty(),
                max,
            ),
            rows_agree(rows.deep_view()),
        decreases lines.len() - i,
    {
        let ghost before = rows.deep_view();
        let line = &lines[i];
        let ghost role = line.role.deep_view();
        assert(all[i as int] == line.deep_view());
        if let Some(gap) = block_gap_rows(&prev, &line.role) {
            if rows.len() > 0 && !rows[rows.len() - 1].text.as_str().is_empty()
                && !line.text.as_str().is_empty() {
                let mut n: usize = 0;
                while n < gap
                    invariant
                        n <= gap,
                        rows.deep_view() == before + Seq::new(
                            n as nat,
                            |k: int| plain_row(Seq::empty()),
                        ),
                    decreases gap - n,
                {
                    let ghost earlier = rows.deep_view();
                    let blank = ProjectedRow::plain(String::new());
                    rows.push(blank);
                    n += 1;
                    proof {
                        assert(blank.deep_view() == plain_row(Seq::<char>::empty()));
                        assert(rows.deep_view() =~= earlier.push(blank.deep_view()));
                        assert(rows.deep_view() =~= before + Seq::new(
                            n as nat,
                            |k: int| plain_row(Seq::empty()),
                        ));
                    }
                }
            }
        }
        let ghost spaced = rows.deep_view();
        assert(spaced =~= with_gap(before, prev.deep_view(), all[i as int]));
        assert(rows_agree(spaced));
        let mut next: usize = i + 1;
        let mut more = match &line.role {
            BlockRole::TableHeader => {
                next = table_run_end(&lines, i);
                proof {
                    table_agrees(all.subrange(i as int, next as int), max);
                }
                project_table(&lines, i, next, width)
            },
            BlockRole::FenceBody { lang } => project_code(
                line.text.as_str(),
                lang.as_str(),
                &slots[i],
                width,
            ),
            BlockRole::FenceEdge => {
                let spans = bake_edge(line.text.as_str());
                style_rows(wrap_spans(&spans, width), &line.role)
            },
            _ => {
                let spans = parse_prose(line.text.as_str());
                style_rows(wrap_spans(&spans, width), &line.role)
            },
        };
        let ghost added = more.deep_view();
        rows.append(&mut more);
        proof {
            assert(rows.deep_view() =~= spaced + added);
            assert(rows_agree(added));
            assert(rows_agree(spaced + added));
        }
        prev = Some(line.role.copy());
        i = next;
    }
    rows
}

// ---------------------------------------------------------------------------
// Laws
// ---------------------------------------------------------------------------

/// An author's blank line is never amplified: a gap opens between two rows that
/// are there and not blank, and nowhere else.
pub proof fn blank_lines_are_not_amplified(
    rows: Seq<RowView>,
    prev: Option<RoleView>,
    next: LogicalView,
)
    ensures
        next.text.len() == 0 ==> with_gap(rows, prev, next) == rows,
        rows.len() == 0 ==> with_gap(rows, prev, next) == rows,
        rows.len() > 0 && rows.last().text.len() == 0 ==> with_gap(rows, prev, next) == rows,
        with_gap(rows, prev, next).len() <= rows.len() + GAP_BLOCK,
{
}

proof fn table_flow_agrees(rows: Seq<LogicalView>, width: nat)
    ensures
        rows_agree(table_flow(rows, width)),
    decreases rows.len(),
{
    if rows.len() > 0 {
        table_flow_agrees(rows.drop_last(), width);
        assert(rows_agree(flow(rows.last().text, width, rows.last().role)));
    }
}

proof fn table_grid_agrees(rows: Seq<LogicalView>, widths: Seq<usize>)
    ensures
        rows_agree(table_grid(rows, widths)),
    decreases rows.len(),
{
    if rows.len() > 0 {
        table_grid_agrees(rows.drop_last(), widths);
        let row = rows.last();
        assert(rows_agree(
            grid(
                super::table::row_cells(row.text),
                widths,
                row.role == RoleView::TableHeader,
                row.role,
            ),
        ));
    }
}

/// Every row of a projected table carries the text its spans say.
pub proof fn table_agrees(rows: Seq<LogicalView>, width: nat)
    ensures
        rows_agree(table(rows, width)),
{
    let columns = super::table::row_cells(rows[0].text).len();
    if width >= 4 * columns + 1 {
        let widths = super::table::waterfilled(
            super::table::natural_widths(rows, columns),
            (width - 3 * columns - 1) as nat,
        );
        table_grid_agrees(rows, widths);
    } else {
        table_flow_agrees(rows, width);
    }
}

proof fn edges_around(lines: Seq<LogicalView>, from: int, i: int, to: int)
    requires
        0 <= from < i < to <= lines.len(),
        lines[from].role == RoleView::FenceEdge,
        forall|j: int| from < j < to ==> (#[trigger] lines[j]).role is FenceBody,
        to < lines.len() ==> lines[to].role == RoleView::FenceEdge,
    ensures
        last_edge(lines, i) == from,
        next_edge(lines, i) == to,
    decreases to - from,
{
    assert(lines[i].role is FenceBody);
    edge_above(lines, from, i);
    edge_below(lines, i, to);
}

proof fn edge_above(lines: Seq<LogicalView>, from: int, i: int)
    requires
        0 <= from < i <= lines.len(),
        lines[from].role == RoleView::FenceEdge,
        forall|j: int| from < j < i ==> (#[trigger] lines[j]).role is FenceBody,
    ensures
        last_edge(lines, i) == from,
    decreases i,
{
    if i > from + 1 {
        assert(lines[i - 1].role is FenceBody);
        edge_above(lines, from, i - 1);
    }
}

proof fn edge_below(lines: Seq<LogicalView>, i: int, to: int)
    requires
        0 <= i <= to <= lines.len(),
        forall|j: int| i <= j < to ==> (#[trigger] lines[j]).role is FenceBody,
        to < lines.len() ==> lines[to].role == RoleView::FenceEdge,
    ensures
        next_edge(lines, i) == to,
    decreases to - i,
{
    if i < to {
        assert(lines[i].role is FenceBody);
        edge_below(lines, i + 1, to);
    }
}

/// The lines of a fenced block are numbered from one on: the first row of each
/// shows its number, aligned with the numbers of as many digits as the block's
/// last one has, and the rows that it wraps into leave that place blank.
pub proof fn code_lines_are_numbered(
    lines: Seq<LogicalView>,
    from: int,
    i: int,
    to: int,
    width: nat,
)
    requires
        0 <= from < i < to <= lines.len(),
        lines[from].role == RoleView::FenceEdge,
        forall|j: int| from < j < to ==> (#[trigger] lines[j]).role is FenceBody,
        to < lines.len() ==> lines[to].role == RoleView::FenceEdge,
    ensures
        forall|k: int|
            0 <= k < line_rows(lines, i, width).len() ==> {
                &&& (#[trigger] line_rows(lines, i, width)[k]).code_line is Some
                &&& line_rows(lines, i, width)[k].role == lines[i].role
                &&& line_rows(lines, i, width)[k].code_line.unwrap().len() == decimal(
                    (to - from - 1) as nat,
                ).len()
                &&& k > 0 ==> trim(line_rows(lines, i, width)[k].code_line.unwrap()).len() == 0
                &&& k == 0 ==> numeral_value(trim(line_rows(lines, i, width)[k].code_line.unwrap()))
                    == i - from
            },
{
    edges_around(lines, from, i, to);
    assert(lines[i].role is FenceBody);
    let number = (i - from) as nat;
    let last = (to - from - 1) as nat;
    let digits = decimal(number);
    decimal_grows(number, last);
    strs::numerals_read_back(number);
    let slot = code_slot(lines, i).unwrap();
    let pad = (decimal(last).len() - digits.len()) as nat;
    assert(slot =~= repeated(' ', pad) + digits + Seq::<char>::empty());
    assert(digits.len() > 0);
    assert(strs::is_digit(digits[0]) && strs::is_digit(digits.last()));
    strs::trimming_leaves_the_core(repeated(' ', pad), digits, Seq::empty());
    let blank = repeated(' ', slot.len());
    strs::trimming_leaves_the_core(blank, Seq::empty(), Seq::empty());
    assert(blank + Seq::<char>::empty() + Seq::<char>::empty() =~= blank);
}

proof fn decimal_grows(a: nat, b: nat)
    requires
        a <= b,
    ensures
        decimal(a).len() <= decimal(b).len(),
        decimal(a).len() > 0,
    decreases b,
{
    if b >= 10 {
        if a >= 10 {
            decimal_grows(a / 10, b / 10);
        } else {
            decimal_grows(0, b / 10);
        }
    }
}

/// Two neighbouring lines with something on them are set apart by one blank row
/// where one is plain text, a heading, code or a table and the other is not;
/// nothing comes between lines of one kind.
pub proof fn blocks_are_set_apart(rows: Seq<RowView>, prev: RoleView, next: LogicalView)
    requires
        rows.len() > 0,
        rows.last().text.len() > 0,
        next.text.len() > 0,
    ensures
        (prev == RoleView::Plain) != (next.role == RoleView::Plain) || (prev == RoleView::Heading)
            != (next.role == RoleView::Heading) || (prev == RoleView::FenceEdge || prev is FenceBody)
            != (next.role == RoleView::FenceEdge || next.role is FenceBody) ==> with_gap(
            rows,
            Some(prev),
            next,
        ) == rows.push(plain_row(Seq::empty())),
        prev == next.role || (prev == RoleView::FenceEdge && next.role is FenceBody) || (
        prev is FenceBody && next.role == RoleView::FenceEdge) || (prev is FenceBody
            && next.role is FenceBody) ==> with_gap(rows, Some(prev), next) == rows,
{
    assert(Seq::new(1, |i: int| plain_row(Seq::empty())) =~= seq![plain_row(Seq::empty())]);
    assert(rows + seq![plain_row(Seq::empty())] =~= rows.push(plain_row(Seq::empty())));
}

/// A table runs on as long as its lines do: every line up to its end is part of
/// a table, and the line at its end is not.
pub proof fn tables_run_to_the_first_other_line(lines: Seq<LogicalView>, start: int)
    requires
        0 <= start < lines.len(),
    ensures
        start < table_end(lines, start) <= lines.len(),
        forall|j: int|
            start < j < table_end(lines, start) ==> super::blocks::in_table(
                (#[trigger] lines[j]).role,
            ),
        table_end(lines, start) < lines.len() ==> !super::blocks::in_table(
            lines[table_end(lines, start)].role,
        ),
    decreases lines.len() - start,
{
    if start + 1 < lines.len() && category(lines[start + 1].role) == BlockCategory::Table {
        tables_run_to_the_first_other_line(lines, start + 1);
    }
}

/// What was laid out stays: the lines from `i` on only add rows behind it.
pub proof fn rows_are_only_added(
    lines: Seq<LogicalView>,
    i: int,
    prev: Option<RoleView>,
    rows: Seq<RowView>,
    width: nat,
)
    ensures
        rows.is_prefix_of(rows_from(lines, i, prev, rows, width)),
    decreases lines.len() - i,
{
    if 0 <= i < lines.len() {
        let role = lines[i].role;
        let spaced = with_gap(rows, prev, lines[i]);
        if role == RoleView::TableHeader {
            let end = table_end(lines, i);
            table_end_range(lines, i);
            rows_are_only_added(
                lines,
                end,
                Some(role),
                spaced + table(lines.subrange(i, end), width),
                width,
            );
        } else {
            rows_are_only_added(lines, i + 1, Some(role), spaced + line_rows(lines, i, width), width);
        }
    }
}

/// Whether the lines are plain text throughout.
pub open spec fn plain_throughout(lines: Seq<LogicalView>) -> bool {
    forall|i: int| 0 <= i < lines.len() ==> (#[trigger] lines[i]).role == RoleView::Plain
}

/// Of plain text every line is shown, in order: one more line adds the rows of
/// that line, and nothing between it and the line before.
pub proof fn plain_lines_follow_each_other(lines: Seq<LogicalView>, line: LogicalView, width: nat)
    requires
        plain_throughout(lines.push(line)),
    ensures
        rows_from(lines.push(line), 0, None, Seq::empty(), width) == rows_from(
            lines,
            0,
            None,
            Seq::empty(),
            width,
        ) + wrapped_spans(prose_spans(line.text), width).map_values(
            |s: Seq<SpanView>| styled_row(RoleView::Plain, s),
        ),
{
    plain_tail(lines, line, 0, None, Seq::empty(), width);
}

proof fn plain_tail(
    lines: Seq<LogicalView>,
    line: LogicalView,
    i: int,
    prev: Option<RoleView>,
    rows: Seq<RowView>,
    width: nat,
)
    requires
        plain_throughout(lines.push(line)),
        0 <= i <= lines.len(),
        prev == None::<RoleView> || prev == Some(RoleView::Plain),
    ensures
        rows_from(lines.push(line), i, prev, rows, width) == rows_from(lines, i, prev, rows, width)
            + wrapped_spans(prose_spans(line.text), width).map_values(
            |s: Seq<SpanView>| styled_row(RoleView::Plain, s),
        ),
    decreases lines.len() - i,
{
    let all = lines.push(line);
    assert(all[i].role == RoleView::Plain);
    if i < lines.len() {
        assert(all[i] == lines[i]);
        plain_tail(lines, line, i + 1, Some(RoleView::Plain), rows + line_rows(lines, i, width), width);
        assert(line_rows(all, i, width) == line_rows(lines, i, width));
    } else {
        assert(all[i] == line);
        assert(rows_from(lines, i, prev, rows, width) == rows);
        let next = rows + line_rows(all, i, width);
        assert(rows_from(all, i + 1, Some(RoleView::Plain), next, width) == next);
    }
}

/// Whether the clusters of every span make up its text.
pub open spec fn clusters_make_up(spans: Seq<SpanView>) -> bool {
    forall|i: int|
        0 <= i < spans.len() ==> content(measured((#[trigger] spans[i]).text)) == spans[i].text
}

proof fn glyphs_carry(items: Seq<ClusterView>, one: SpanView)
    ensures
        glyphs_text(
            items.map_values(
                |c: ClusterView| GlyphView { text: c.text, cells: c.cells, style: one.style },
            ),
        ) == content(items),
    decreases items.len(),
{
    let glyphs = items.map_values(
        |c: ClusterView| GlyphView { text: c.text, cells: c.cells, style: one.style },
    );
    if items.len() > 0 {
        let before = items.drop_last();
        glyphs_carry(before, one);
        assert(glyphs.drop_last() =~= before.map_values(
            |c: ClusterView| GlyphView { text: c.text, cells: c.cells, style: one.style },
        ));
    }
}

proof fn glyph_texts_add(a: Seq<GlyphView>, b: Seq<GlyphView>)
    ensures
        glyphs_text(a + b) == glyphs_text(a) + glyphs_text(b),
    decreases b.len(),
{
    if b.len() == 0 {
        assert(a + b =~= a);
        assert(glyphs_text(a) + glyphs_text(b) =~= glyphs_text(a));
    } else {
        assert((a + b).drop_last() =~= a + b.drop_last());
        glyph_texts_add(a, b.drop_last());
        assert(glyphs_text(a + b) =~= glyphs_text(a) + glyphs_text(b));
    }
}

proof fn glyphs_say_what_spans_say(spans: Seq<SpanView>)
    requires
        clusters_make_up(spans),
    ensures
        glyphs_text(glyphs_of(spans)) == spans_text(spans),
    decreases spans.len(),
{
    if spans.len() > 0 {
        let before = spans.drop_last();
        assert forall|i: int| 0 <= i < before.len() implies content(
            measured((#[trigger] before[i]).text),
        ) == before[i].text by {
            assert(before[i] == spans[i]);
        }
        glyphs_say_what_spans_say(before);
        let last = spans[spans.len() - 1];
        glyph_texts_add(glyphs_of(before), span_glyphs(last));
        glyphs_carry(measured(last.text), last);
    }
}

proof fn styled_rows_say(rows: Seq<Seq<SpanView>>, role: RoleView)
    ensures
        concat(
            rows.map_values(|s: Seq<SpanView>| styled_row(role, s)).map_values(
                |row: RowView| row.text,
            ),
        ) == rows_text(rows),
    decreases rows.len(),
{
    let texts = rows.map_values(|s: Seq<SpanView>| styled_row(role, s)).map_values(
        |row: RowView| row.text,
    );
    if rows.len() > 0 {
        let before = rows.drop_last();
        styled_rows_say(before, role);
        assert(texts.drop_last() =~= before.map_values(
            |s: Seq<SpanView>| styled_row(role, s),
        ).map_values(|row: RowView| row.text));
    }
}

/// An answer of one line outside code shows the text of its spans, whatever the
/// width: read one after the other, its rows say what the spans say, a list item's
/// marker and all.
pub proof fn one_line_answers_show_their_spans(answer: Seq<char>, width: nat)
    requires
        width > 0,
        !answer.contains('\n'),
        super::blocks::fence_of(answer) is None,
        clusters_make_up(prose_spans(answer)),
    ensures
        concat(projected_answer(answer, width).map_values(|row: RowView| row.text)) == spans_text(
            prose_spans(answer),
        ),
{
    let lines = classified(answer);
    strs::one_piece(answer, '\n');
    let texts = seq![answer];
    assert(crate::strs::split_on(answer, '\n') == texts);
    let role = super::blocks::line_role(texts, 0);
    assert(lines =~= seq![LogicalView { text: answer, role }]);
    assert(super::blocks::open_fence(texts, 0) is None);
    assert(role == RoleView::Plain || role == RoleView::Heading);
    let spans = prose_spans(answer);
    let rows = wrapped_spans(spans, width);
    let shown = rows.map_values(|s: Seq<SpanView>| styled_row(role, s));
    assert(line_rows(lines, 0, width) == shown);
    let none = Seq::<RowView>::empty();
    assert(with_gap(none, None, lines[0]) == none);
    assert(rows_from(lines, 1, Some(role), none + shown, width) == none + shown);
    assert(none + shown =~= shown);
    assert(projected_answer(answer, width) == shown);
    wrapping_keeps_text_and_style(glyphs_of(spans), width);
    glyphs_say_what_spans_say(spans);
    styled_rows_say(rows, role);
}

/// A fence is shown as it was written, its marks as part of the frame and its
/// language standing out.
pub proof fn fences_show_their_language(text: Seq<char>)
    ensures
        spans_text(edge_spans(text)) == text,
        forall|mark: char, marks: nat, rest: Seq<char>|
            (mark == '`' || mark == '~') && marks > 0 && trim(rest).len() > 0 && rest[0] != mark
                && text == #[trigger] (repeated(mark, marks) + rest) ==> edge_spans(text) == seq![
                span(repeated(mark, marks), bar_style()),
                span(rest, accent_style()),
            ],
{
    strs::leading_white_goes(text);
    let indent = text.take(leading_white(text) as int);
    let body = text.skip(leading_white(text) as int);
    let run = if body.len() > 0 && (body[0] == '`' || body[0] == '~') {
        run_len(body, body[0]) as int
    } else {
        0
    };
    if body.len() > 0 {
        super::blocks::run_len_bound(body, body[0]);
    }
    let tail = body.skip(run);
    let lead = if indent.len() == 0 {
        Seq::empty()
    } else {
        seq![span(indent, bar_style())]
    };
    reveal_with_fuel(spans_text, 2);
    assert(lead.len() > 0 ==> lead.drop_last() =~= Seq::<SpanView>::empty());
    assert(spans_text(lead) =~= indent);
    let marked = lead.push(span(body.take(run), bar_style()));
    assert(marked.drop_last() =~= lead);
    assert(spans_text(marked) =~= indent + body.take(run));
    let toned = span(
        tail,
        if trim(tail).len() == 0 {
            bar_style()
        } else {
            accent_style()
        },
    );
    assert(marked.push(toned).drop_last() =~= marked);
    assert(text =~= indent + body.take(run) + tail);
    assert forall|mark: char, marks: nat, rest: Seq<char>|
        (mark == '`' || mark == '~') && marks > 0 && trim(rest).len() > 0 && rest[0] != mark && text
            == #[trigger] (repeated(mark, marks) + rest) implies edge_spans(text) == seq![
        span(repeated(mark, marks), bar_style()),
        span(rest, accent_style()),
    ] by {
        assert(text[0] == mark);
        assert(leading_white(text) == 0);
        assert(body =~= text);
        super::blocks::runs_end(marks, rest, mark);
        assert(body.take(run) =~= repeated(mark, marks));
        assert(tail =~= rest);
        if rest.len() == 0 {
            assert(rest =~= Seq::<char>::empty());
        }
        assert(edge_spans(text) =~= seq![
            span(repeated(mark, marks), bar_style()),
            span(rest, accent_style()),
        ]);
    }
}

} // verus!
