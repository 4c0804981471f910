//! Settled tables as framed grids, or as a flow of dimmed pipes.

use vstd::prelude::*;

use super::blocks::{LogicalLine, LogicalView};
use super::flow::{wrap_spans, wrapped_spans};
use super::inline::{border, border_style, parse_prose, prose_spans};
use super::style::{
    plain_style, push_copies, span, spans_cells, spans_width, styled_row, BlockRole, ProjectedRow,
    ProseColor, ProseSpan, ProseStyle, RoleView, RowView, SpanView,
};
use crate::app::text;
use crate::app::text::cell_width;
use crate::strs;
use crate::strs::{join, repeated, split_on, trim};

verus! {

// ---------------------------------------------------------------------------
// Cells of a row
// ---------------------------------------------------------------------------

/// The text without one leading and one trailing pipe.
pub open spec fn unframed(text: Seq<char>) -> Seq<char> {
    let inner = if text.len() > 0 && text[0] == '|' {
        text.skip(1)
    } else {
        text
    };
    if inner.len() > 0 && inner.last() == '|' {
        inner.drop_last()
    } else {
        inner
    }
}

/// The trimmed cells of a pipe row; outer pipes are optional.
pub open spec fn row_cells(line: Seq<char>) -> Seq<Seq<char>> {
    split_on(unframed(trim(line)), '|').map_values(|cell: Seq<char>| trim(cell))
}

/// Splits one pipe row into trimmed cell texts.
pub fn split_cells(line: &str) -> (cells: Vec<String>)
    ensures
        cells.deep_view() == row_cells(line@),
        cells.len() >= 1,
{
    let body = strs::trimmed(line);
    let chars = strs::chars_of(body.as_str());
    let mut from: usize = 0;
    let mut to: usize = chars.len();
    if from < to && chars[from] == '|' {
        from += 1;
    }
    if from < to && chars[to - 1] == '|' {
        to -= 1;
    }
    let inner = strs::string_of(&chars, from, to);
    proof {
        assert(inner@ =~= unframed(trim(line@)));
    }
    let parts = strs::split(inner.as_str(), '|');
    let ghost all = parts.deep_view();
    let mut cells: Vec<String> = Vec::new();
    let mut i: usize = 0;
    while i < parts.len()
        invariant
            i <= parts.len(),
            all == parts.deep_view(),
            cells.len() == i,
            forall|k: int| 0 <= k < i ==> (#[trigger] cells@[k])@ == trim(all[k]),
        decreases parts.len() - i,
    {
        cells.push(strs::trimmed(parts[i].as_str()));
        i += 1;
    }
    proof {
        assert(cells.deep_view() =~= row_cells(line@));
    }
    cells
}

// ---------------------------------------------------------------------------
// Column widths
// ---------------------------------------------------------------------------

pub open spec fn wider(a: usize, b: usize) -> usize {
    if a >= b {
        a
    } else {
        b
    }
}

/// The widths after one more row: each column at least as wide as its cell, and
/// at least one cell wide.
pub open spec fn widened(widths: Seq<usize>, cells: Seq<Seq<char>>) -> Seq<usize> {
    Seq::new(
        widths.len(),
        |c: int|
            if c < cells.len() {
                wider(widths[c], wider(cell_width(cells[c]), 1))
            } else {
                widths[c]
            },
    )
}

/// The natural width of every column: that of its widest cell. The delimiter
/// row counts for nothing, and cells beyond the header's count are dropped.
pub open spec fn natural_widths(rows: Seq<LogicalView>, columns: nat) -> Seq<usize>
    decreases rows.len(),
{
    if rows.len() == 0 {
        Seq::new(columns, |c: int| 0usize)
    } else {
        let before = natural_widths(rows.drop_last(), columns);
        if rows.last().role == RoleView::TableDelim {
            before
        } else {
            widened(before, row_cells(rows.last().text))
        }
    }
}

fn measure_columns(rows: &Vec<LogicalLine>, from: usize, to: usize, columns: usize) -> (widths: Vec<
    usize,
>)
    requires
        from <= to <= rows.len(),
    ensures
        widths@ == natural_widths(
            rows.deep_view().subrange(from as int, to as int),
            columns as nat,
        ),
        widths.len() == columns,
{
    let ghost all = rows.deep_view();
    let mut widths: Vec<usize> = Vec::new();
    let mut c: usize = 0;
    while c < columns
        invariant
            c <= columns,
            widths.len() == c,
            forall|k: int| 0 <= k < c ==> widths@[k] == 0,
        decreases columns - c,
    {
        widths.push(0);
        c += 1;
    }
    let mut i: usize = from;
    proof {
        assert(widths@ =~= natural_widths(all.subrange(from as int, from as int), columns as nat));
    }
    while i < to
        invariant
            from <= i <= to <= rows.len(),
            all == rows.deep_view(),
            widths.len() == columns,
            widths@ == natural_widths(all.subrange(from as int, i as int), columns as nat),
        decreases to - i,
    {
        let ghost before = widths@;
        proof {
            let grown = all.subrange(from as int, i as int + 1);
            assert(grown.drop_last() =~= all.subrange(from as int, i as int));
            assert(grown.last() == all[i as int]);
        }
        if !matches!(rows[i].role, BlockRole::TableDelim) {
            let cells = split_cells(rows[i].text.as_str());
            let mut c: usize = 0;
            while c < columns && c < cells.len()
                invariant
                    c <= columns,
                    c <= cells.len(),
                    widths.len() == columns,
                    before.len() == columns,
                    forall|k: int|
                        0 <= k < c ==> #[trigger] widths@[k] == wider(
                            before[k],
                            wider(cell_width(cells@[k]@), 1),
                        ),
                    forall|k: int| c <= k < columns ==> #[trigger] widths@[k] == before[k],
                decreases columns - c,
            {
                let mut cell = text::width(cells[c].as_str());
                if cell < 1 {
                    cell = 1;
                }
                if cell > widths[c] {
                    widths.set(c, cell);
                }
                c += 1;
            }
            proof {
                assert(widths@ =~= widened(before, cells.deep_view()));
            }
        }
        i += 1;
    }
    widths
}

/// The sum of all widths.
pub open spec fn total(widths: Seq<usize>) -> nat
    decreases widths.len(),
{
    if widths.len() == 0 {
        0
    } else {
        total(widths.drop_last()) + widths.last() as nat
    }
}

/// `order` with column `next` behind every column at least as wide as it.
pub open spec fn ranked(order: Seq<int>, naturals: Seq<usize>, next: int) -> Seq<int>
    decreases order.len(),
{
    if order.len() == 0 || naturals[order.last()] >= naturals[next] {
        order.push(next)
    } else {
        ranked(order.drop_last(), naturals, next).push(order.last())
    }
}

/// The first `count` columns, widest first; equally wide ones keep their order.
pub open spec fn widest_first(naturals: Seq<usize>, count: nat) -> Seq<int>
    decreases count,
{
    if count == 0 {
        Seq::empty()
    } else {
        ranked(widest_first(naturals, (count - 1) as nat), naturals, count - 1)
    }
}

/// The widths given out so far and the cells that are left.
pub struct FillView {
    pub widths: Seq<usize>,
    pub left: int,
}

/// The state after the `ranks` widest columns have taken their share: each its
/// natural width, but no more than an equal part of what is left.
pub open spec fn filled(naturals: Seq<usize>, budget: int, ranks: nat) -> FillView
    decreases ranks,
{
    if ranks == 0 {
        FillView { widths: Seq::new(naturals.len(), |c: int| 0usize), left: budget }
    } else {
        let before = filled(naturals, budget, (ranks - 1) as nat);
        let column = widest_first(naturals, naturals.len())[ranks - 1];
        let share = before.left / (naturals.len() - (ranks - 1));
        let taken = if naturals[column] as int <= share {
            naturals[column]
        } else {
            share as usize
        };
        FillView { widths: before.widths.update(column, taken), left: before.left - taken }
    }
}

/// The column widths within `budget`: the natural ones where they fit, otherwise
/// the widest columns shrink.
pub open spec fn waterfilled(naturals: Seq<usize>, budget: nat) -> Seq<usize> {
    if total(naturals) <= budget {
        naturals
    } else {
        filled(naturals, budget as int, naturals.len()).widths
    }
}

/// Whether column `a` comes before column `b`: it is wider, or as wide and
/// further to the left.
pub open spec fn precedes(naturals: Seq<usize>, a: int, b: int) -> bool {
    naturals[a] > naturals[b] || (naturals[a] == naturals[b] && a < b)
}

/// Each column precedes all that follow it.
pub open spec fn in_rank(order: Seq<int>, naturals: Seq<usize>) -> bool {
    forall|i: int, j: int|
        0 <= i < j < order.len() ==> precedes(naturals, #[trigger] order[i], #[trigger] order[j])
}

/// A ranking holds each of its columns once, widest first.
pub open spec fn is_ranking(order: Seq<int>, naturals: Seq<usize>, count: nat) -> bool {
    &&& order.len() == count
    &&& forall|i: int| 0 <= i < order.len() ==> 0 <= #[trigger] order[i] < count
    &&& in_rank(order, naturals)
}

proof fn ranked_is_ranking(order: Seq<int>, naturals: Seq<usize>, next: int)
    requires
        0 <= next < naturals.len(),
        forall|i: int| 0 <= i < order.len() ==> 0 <= #[trigger] order[i] < next,
        in_rank(order, naturals),
    ensures
        ranked(order, naturals, next).len() == order.len() + 1,
        forall|i: int|
            0 <= i <= order.len() ==> 0 <= #[trigger] ranked(order, naturals, next)[i] <= next,
        forall|i: int|
            0 <= i <= order.len() ==> #[trigger] ranked(order, naturals, next)[i] == next
                || order.contains(ranked(order, naturals, next)[i]),
        in_rank(ranked(order, naturals, next), naturals),
    decreases order.len(),
{
    let r = ranked(order, naturals, next);
    if order.len() == 0 {
    } else if naturals[order.last()] >= naturals[next] {
        assert forall|i: int| 0 <= i <= order.len() implies #[trigger] r[i] == next
            || order.contains(r[i]) by {
            if i < order.len() {
                assert(r[i] == order[i]);
            }
        }
        assert forall|i: int, j: int| 0 <= i < j < r.len() implies precedes(
            naturals,
            #[trigger] r[i],
            #[trigger] r[j],
        ) by {
            assert(r[i] == order[i]);
            if j < order.len() {
                assert(r[j] == order[j]);
            } else if i < order.len() - 1 {
                assert(precedes(naturals, order[i], order[order.len() - 1]));
            }
        }
    } else {
        let rest = order.drop_last();
        assert(in_rank(rest, naturals)) by {
            assert forall|i: int, j: int| 0 <= i < j < rest.len() implies precedes(
                naturals,
                #[trigger] rest[i],
                #[trigger] rest[j],
            ) by {
                assert(precedes(naturals, order[i], order[j]));
            }
        }
        ranked_is_ranking(rest, naturals, next);
        let inner = ranked(rest, naturals, next);
        assert forall|i: int| 0 <= i <= order.len() implies #[trigger] r[i] == next
            || order.contains(r[i]) by {
            if i < order.len() {
                assert(r[i] == inner[i]);
                if inner[i] != next {
                    assert(rest.contains(inner[i]));
                    let k = choose|k: int| 0 <= k < rest.len() && rest[k] == inner[i];
                    assert(order[k] == inner[i]);
                }
            } else {
                assert(r[i] == order[order.len() - 1]);
            }
        }
        assert forall|i: int, j: int| 0 <= i < j < r.len() implies precedes(
            naturals,
            #[trigger] r[i],
            #[trigger] r[j],
        ) by {
            assert(r[i] == inner[i]);
            if j < order.len() {
                assert(r[j] == inner[j]);
            } else {
                assert(r[j] == order.last());
                if inner[i] != next {
                    assert(rest.contains(inner[i]));
                    let k = choose|k: int| 0 <= k < rest.len() && rest[k] == inner[i];
                    assert(order[k] == inner[i]);
                    assert(precedes(naturals, order[k], order[order.len() - 1]));
                }
            }
        }
    }
}

/// [`widest_first`] ranks the columns: each once, wider ones first, equally wide
/// ones in their order.
pub proof fn widest_first_is_ranking(naturals: Seq<usize>, count: nat)
    requires
        count <= naturals.len(),
    ensures
        is_ranking(widest_first(naturals, count), naturals, count),
    decreases count,
{
    if count > 0 {
        widest_first_is_ranking(naturals, (count - 1) as nat);
        ranked_is_ranking(widest_first(naturals, (count - 1) as nat), naturals, count - 1);
    }
}

/// An equal part of what is left leaves at least one cell for each column that
/// still waits.
proof fn share_leaves_enough(left: int, waiting: int)
    requires
        left >= waiting >= 1,
    ensures
        1 <= left / waiting <= left - (waiting - 1),
{
    assert(1 <= left / waiting <= left - (waiting - 1)) by (nonlinear_arith)
        requires
            left >= waiting >= 1,
    ;
}

pub proof fn total_update(widths: Seq<usize>, at: int, value: usize)
    requires
        0 <= at < widths.len(),
    ensures
        total(widths.update(at, value)) == total(widths) - widths[at] + value,
    decreases widths.len(),
{
    let changed = widths.update(at, value);
    if at == widths.len() - 1 {
        assert(changed.drop_last() =~= widths.drop_last());
    } else {
        assert(changed.drop_last() =~= widths.drop_last().update(at, value));
        total_update(widths.drop_last(), at, value);
    }
}

proof fn total_zero(count: nat)
    ensures
        total(Seq::new(count, |c: int| 0usize)) == 0,
    decreases count,
{
    let zeros = Seq::new(count, |c: int| 0usize);
    if count > 0 {
        assert(zeros.drop_last() =~= Seq::new((count - 1) as nat, |c: int| 0usize));
        total_zero((count - 1) as nat);
    }
}

proof fn filling(naturals: Seq<usize>, budget: int, ranks: nat)
    requires
        naturals.len() <= budget <= usize::MAX,
        ranks <= naturals.len(),
    ensures
        ({
            let state = filled(naturals, budget, ranks);
            let order = widest_first(naturals, naturals.len());
            &&& state.widths.len() == naturals.len()
            &&& state.left >= naturals.len() - ranks
            &&& state.left <= budget
            &&& total(state.widths) + state.left == budget
            &&& forall|c: int| 0 <= c < naturals.len() ==> #[trigger] state.widths[c] <= naturals[c]
            &&& forall|k: int|
                ranks <= k < naturals.len() ==> state.widths[#[trigger] order[k]] == 0
            &&& forall|k: int|
                0 <= k < ranks ==> (naturals[#[trigger] order[k]] >= 1
                    ==> state.widths[order[k]] >= 1)
        }),
    decreases ranks,
{
    let order = widest_first(naturals, naturals.len());
    widest_first_is_ranking(naturals, naturals.len());
    if ranks == 0 {
        total_zero(naturals.len());
    } else {
        let before = filled(naturals, budget, (ranks - 1) as nat);
        filling(naturals, budget, (ranks - 1) as nat);
        let column = order[ranks - 1];
        let waiting = naturals.len() - (ranks - 1);
        share_leaves_enough(before.left, waiting);
        let state = filled(naturals, budget, ranks);
        let taken = state.widths[column];
        assert(before.widths[order[ranks - 1]] == 0);
        total_update(before.widths, column, taken);
        assert forall|k: int| ranks <= k < naturals.len() implies state.widths[
            #[trigger] order[k]
        ] == 0 by {
            assert(order[k] != order[ranks - 1]);
            assert(before.widths[order[k]] == 0);
        }
        assert forall|k: int| 0 <= k < ranks implies (naturals[#[trigger] order[k]] >= 1
            ==> state.widths[order[k]] >= 1) by {
            if k < ranks - 1 {
                assert(order[k] != order[ranks - 1]);
            }
        }
    }
}

/// Water-filling stays within the budget, never widens a column, and leaves no
/// column with content without a cell.
pub proof fn waterfill_bounds(naturals: Seq<usize>, budget: nat)
    requires
        naturals.len() <= budget <= usize::MAX,
    ensures
        waterfilled(naturals, budget).len() == naturals.len(),
        total(waterfilled(naturals, budget)) <= budget,
        forall|c: int|
            0 <= c < naturals.len() ==> #[trigger] waterfilled(naturals, budget)[c] <= naturals[c],
        forall|c: int|
            0 <= c < naturals.len() && naturals[c] >= 1 ==> #[trigger] waterfilled(
                naturals,
                budget,
            )[c] >= 1,
{
    if total(naturals) > budget {
        let n = naturals.len();
        filling(naturals, budget as int, n);
        widest_first_is_ranking(naturals, n);
        let order = widest_first(naturals, n);
        assert forall|c: int| 0 <= c < n && naturals[c] >= 1 implies #[trigger] waterfilled(
            naturals,
            budget,
        )[c] >= 1 by {
            ranking_is_onto(order, naturals, n, c);
            let k = choose|k: int| 0 <= k < n && order[k] == c;
            assert(naturals[order[k]] >= 1);
        }
    }
}

/// A ranking of all columns holds every column.
proof fn ranking_is_onto(order: Seq<int>, naturals: Seq<usize>, count: nat, column: int)
    requires
        order == widest_first(naturals, count),
        count <= naturals.len(),
        0 <= column < count,
    ensures
        exists|k: int| 0 <= k < count && order[k] == column,
    decreases count,
{
    widest_first_is_ranking(naturals, count);
    let earlier = widest_first(naturals, (count - 1) as nat);
    widest_first_is_ranking(naturals, (count - 1) as nat);
    ranked_keeps(earlier, naturals, count - 1);
    if column == count - 1 {
        assert(order.contains(column));
    } else {
        ranking_is_onto(earlier, naturals, (count - 1) as nat, column);
        let k = choose|k: int| 0 <= k < count - 1 && earlier[k] == column;
        assert(earlier.contains(earlier[k]));
        assert(order.contains(column));
    }
    let k = choose|k: int| 0 <= k < order.len() && order[k] == column;
    assert(order[k] == column);
}

proof fn ranked_keeps(order: Seq<int>, naturals: Seq<usize>, next: int)
    ensures
        ranked(order, naturals, next).contains(next),
        forall|x: int| order.contains(x) ==> #[trigger] ranked(order, naturals, next).contains(x),
    decreases order.len(),
{
    let r = ranked(order, naturals, next);
    if order.len() == 0 || naturals[order.last()] >= naturals[next] {
        assert(r[order.len() as int] == next);
        assert forall|x: int| order.contains(x) implies #[trigger] r.contains(x) by {
            let k = choose|k: int| 0 <= k < order.len() && order[k] == x;
            assert(r[k] == x);
        }
    } else {
        let rest = order.drop_last();
        ranked_keeps(rest, naturals, next);
        let inner = ranked(rest, naturals, next);
        let at = choose|k: int| 0 <= k < inner.len() && inner[k] == next;
        assert(r[at] == next);
        assert forall|x: int| order.contains(x) implies #[trigger] r.contains(x) by {
            let k = choose|k: int| 0 <= k < order.len() && order[k] == x;
            if k == order.len() - 1 {
                assert(r[r.len() - 1] == x);
            } else {
                assert(rest[k] == x);
                assert(rest.contains(x));
                assert(inner.contains(x));
                let j = choose|j: int| 0 <= j < inner.len() && inner[j] == x;
                assert(r[j] == x);
            }
        }
    }
}

/// The columns, widest first.
fn rank_columns(naturals: &Vec<usize>) -> (order: Vec<usize>)
    ensures
        order.len() == naturals.len(),
        order@.map_values(|c: usize| c as int) == widest_first(naturals@, naturals@.len()),
{
    let mut order: Vec<usize> = Vec::new();
    let mut next: usize = 0;
    let ghost to_int = |c: usize| c as int;
    proof {
        assert(order@.map_values(to_int) =~= widest_first(naturals@, 0));
    }
    while next < naturals.len()
        invariant
            next <= naturals.len(),
            to_int == (|c: usize| c as int),
            order.len() == next,
            order@.map_values(to_int) == widest_first(naturals@, next as nat),
            forall|i: int| 0 <= i < order.len() ==> #[trigger] order@[i] < next,
        decreases naturals.len() - next,
    {
        let ghost earlier = order@.map_values(to_int);
        let mut at: usize = order.len();
        proof {
            assert(earlier.take(at as int) =~= earlier);
            assert(ranked(earlier, naturals@, next as int) =~= ranked(
                earlier.take(at as int),
                naturals@,
                next as int,
            ) + earlier.skip(at as int));
        }
        while at > 0 && naturals[order[at - 1]] < naturals[next]
            invariant
                at <= order.len(),
                next < naturals.len(),
                to_int == (|c: usize| c as int),
                earlier == order@.map_values(to_int),
                forall|i: int| 0 <= i < order.len() ==> #[trigger] order@[i] < next,
                ranked(earlier, naturals@, next as int) == ranked(
                    earlier.take(at as int),
                    naturals@,
                    next as int,
                ) + earlier.skip(at as int),
            decreases at,
        {
            proof {
                let part = earlier.take(at as int);
                assert(part.last() == order@[at - 1]);
                assert(part.drop_last() =~= earlier.take(at - 1));
                assert(ranked(part, naturals@, next as int) == ranked(
                    earlier.take(at - 1),
                    naturals@,
                    next as int,
                ).push(part.last()));
                assert(ranked(earlier.take(at - 1), naturals@, next as int).push(part.last())
                    + earlier.skip(at as int) =~= ranked(
                    earlier.take(at - 1),
                    naturals@,
                    next as int,
                ) + earlier.skip(at - 1));
            }
            at -= 1;
        }
        let ghost before = order@;
        order.insert(at, next);
        proof {
            let part = earlier.take(at as int);
            if at > 0 {
                assert(part.last() == before[at - 1]);
            }
            assert(ranked(part, naturals@, next as int) == part.push(next as int));
            assert(order@ =~= before.insert(at as int, next));
            assert(order@.map_values(to_int) =~= part.push(next as int) + earlier.skip(at as int));
            assert forall|i: int| 0 <= i < order.len() implies #[trigger] order@[i] < next + 1 by {
                if i < at {
                    assert(order@[i] == before[i]);
                } else if i > at {
                    assert(order@[i] == before[i - 1]);
                }
            }
        }
        next += 1;
    }
    order
}

/// Whether the widths together stay within `budget`.
fn fits(widths: &Vec<usize>, budget: usize) -> (yes: bool)
    ensures
        yes == (total(widths@) <= budget),
{
    let mut left: usize = budget;
    let mut i: usize = 0;
    while i < widths.len()
        invariant
            i <= widths.len(),
            total(widths@.take(i as int)) + left == budget,
        decreases widths.len() - i,
    {
        proof {
            assert(widths@.take(i as int + 1).drop_last() =~= widths@.take(i as int));
        }
        if widths[i] > left {
            proof {
                total_monotone(widths@, i as int + 1);
            }
            return false;
        }
        left -= widths[i];
        i += 1;
    }
    proof {
        assert(widths@.take(i as int) =~= widths@);
    }
    true
}

proof fn total_monotone(widths: Seq<usize>, count: int)
    requires
        0 <= count <= widths.len(),
    ensures
        total(widths.take(count)) <= total(widths),
    decreases widths.len() - count,
{
    if count == widths.len() {
        assert(widths.take(count) =~= widths);
    } else {
        assert(widths.take(count + 1).drop_last() =~= widths.take(count));
        total_monotone(widths, count + 1);
    }
}

/// Distributes `budget` display cells over the columns, at least one for each.
pub fn waterfill(naturals: &Vec<usize>, budget: usize) -> (widths: Vec<usize>)
    requires
        naturals.len() <= budget,
    ensures
        widths@ == waterfilled(naturals@, budget as nat),
{
    let count = naturals.len();
    let mut widths: Vec<usize> = Vec::new();
    let mut c: usize = 0;
    if fits(naturals, budget) {
        while c < count
            invariant
                c <= count,
                count == naturals.len(),
                widths@ == naturals@.take(c as int),
            decreases count - c,
        {
            widths.push(naturals[c]);
            proof {
                assert(widths@ =~= naturals@.take(c as int + 1));
            }
            c += 1;
        }
        proof {
            assert(widths@ =~= naturals@);
        }
        return widths;
    }
    while c < count
        invariant
            c <= count,
            widths@ == Seq::new(c as nat, |k: int| 0usize),
        decreases count - c,
    {
        widths.push(0);
        proof {
            assert(widths@ =~= Seq::new(c as nat + 1, |k: int| 0usize));
        }
        c += 1;
    }
    let order = rank_columns(naturals);
    let mut left: usize = budget;
    let mut rank: usize = 0;
    proof {
        assert(widths@ =~= filled(naturals@, budget as int, 0).widths);
    }
    while rank < count
        invariant
            rank <= count,
            count == naturals.len(),
            count <= budget,
            order.len() == count,
            order@.map_values(|c: usize| c as int) == widest_first(naturals@, naturals@.len()),
            widths.len() == count,
            widths@ == filled(naturals@, budget as int, rank as nat).widths,
            left == filled(naturals@, budget as int, rank as nat).left,
        decreases count - rank,
    {
        proof {
            filling(naturals@, budget as int, rank as nat);
            widest_first_is_ranking(naturals@, naturals@.len());
            let ints = order@.map_values(|c: usize| c as int);
            assert(ints[rank as int] == order@[rank as int]);
            share_leaves_enough(left as int, count - rank);
        }
        let column = order[rank];
        let share = left / (count - rank);
        let taken = if naturals[column] <= share {
            naturals[column]
        } else {
            share
        };
        widths.set(column, taken);
        left -= taken;
        rank += 1;
    }
    widths
}

// ---------------------------------------------------------------------------
// Rows of the grid
// ---------------------------------------------------------------------------

/// The segments of a border row, with `mid` between each two.
pub open spec fn frame_segments(widths: Seq<usize>, mid: Seq<char>) -> Seq<SpanView>
    decreases widths.len(),
{
    if widths.len() == 0 {
        Seq::empty()
    } else {
        let before = frame_segments(widths.drop_last(), mid);
        let segment = span(repeated('─', widths.last() as nat + 2), border_style());
        if widths.len() == 1 {
            before.push(segment)
        } else {
            before.push(span(mid, border_style())).push(segment)
        }
    }
}

/// One border row of the frame.
pub open spec fn frame(
    widths: Seq<usize>,
    left: Seq<char>,
    mid: Seq<char>,
    right: Seq<char>,
) -> RowView {
    styled_row(
        RoleView::TableDelim,
        (seq![span(left, border_style())] + frame_segments(widths, mid)).push(
            span(right, border_style()),
        ),
    )
}

/// One full-frame border row. Each segment spans its column plus the
/// single-space padding so junctions line up with the data-row bars exactly.
pub fn frame_row(widths: &Vec<usize>, left: &str, mid: &str, right: &str) -> (row: ProjectedRow)
    requires
        forall|c: int| 0 <= c < widths.len() ==> #[trigger] widths@[c] <= usize::MAX - 2,
    ensures
        row.deep_view() == frame(widths@, left@, mid@, right@),
{
    let mut spans: Vec<ProseSpan> = Vec::new();
    spans.push(ProseSpan::of(left, border()));
    let ghost start = seq![span(left@, border_style())];
    let mut c: usize = 0;
    proof {
        assert(spans.deep_view() =~= start + frame_segments(widths@.take(0), mid@));
    }
    while c < widths.len()
        invariant
            c <= widths.len(),
            forall|k: int| 0 <= k < widths.len() ==> #[trigger] widths@[k] <= usize::MAX - 2,
            spans.deep_view() == start + frame_segments(widths@.take(c as int), mid@),
        decreases widths.len() - c,
    {
        let ghost before = spans.deep_view();
        let ghost earlier = frame_segments(widths@.take(c as int), mid@);
        proof {
            assert(widths@.take(c as int + 1).drop_last() =~= widths@.take(c as int));
        }
        if c > 0 {
            spans.push(ProseSpan::of(mid, border()));
            proof {
                assert(spans.deep_view() =~= before.push(span(mid@, border_style())));
            }
        }
        let ghost between = spans.deep_view();
        let segment = ProseSpan::new(strs::repeat_char('─', widths[c] + 2), border());
        spans.push(segment);
        proof {
            assert(spans.deep_view() =~= between.push(segment.deep_view()));
            assert(spans.deep_view() =~= start + frame_segments(widths@.take(c as int + 1), mid@));
        }
        c += 1;
    }
    let ghost before = spans.deep_view();
    spans.push(ProseSpan::of(right, border()));
    proof {
        assert(widths@.take(c as int) =~= widths@);
        assert(spans.deep_view() =~= before.push(span(right@, border_style())));
    }
    ProjectedRow::styled(BlockRole::TableDelim, spans)
}

/// Header text is bold and accented, body text as it is.
pub open spec fn cell_style(style: ProseStyle, header: bool) -> ProseStyle {
    if header {
        ProseStyle { bold: true, color: ProseColor::Accent, ..style }
    } else {
        style
    }
}

/// The wrapped lines of one cell.
pub open spec fn cell_lines(cell: Seq<char>, width: nat, header: bool) -> Seq<Seq<SpanView>> {
    wrapped_spans(
        prose_spans(cell).map_values(
            |s: SpanView| SpanView { text: s.text, style: cell_style(s.style, header) },
        ),
        width,
    )
}

/// The wrapped lines of every column; a missing cell is an empty one.
pub open spec fn column_lines(
    cells: Seq<Seq<char>>,
    widths: Seq<usize>,
    header: bool,
) -> Seq<Seq<Seq<SpanView>>> {
    Seq::new(
        widths.len(),
        |c: int|
            cell_lines(
                if c < cells.len() {
                    cells[c]
                } else {
                    Seq::empty()
                },
                widths[c] as nat,
                header,
            ),
    )
}

/// The number of lines of the tallest column.
pub open spec fn tallest(columns: Seq<Seq<Seq<SpanView>>>) -> nat
    decreases columns.len(),
{
    if columns.len() == 0 {
        0
    } else {
        let before = tallest(columns.drop_last());
        if before >= columns.last().len() {
            before
        } else {
            columns.last().len()
        }
    }
}

/// The part of grid line `r` that the first columns take: content, filling up
/// to the column's width, and a bar.
pub open spec fn grid_parts(
    columns: Seq<Seq<Seq<SpanView>>>,
    widths: Seq<usize>,
    r: int,
    count: nat,
) -> Seq<SpanView>
    decreases count,
{
    if count == 0 {
        seq![span("│ "@, border_style())]
    } else {
        let c = count - 1;
        let before = grid_parts(columns, widths, r, c as nat);
        let line = if r < columns[c].len() {
            columns[c][r]
        } else {
            Seq::empty()
        };
        let used = spans_cells(line);
        let content = if used < widths[c] {
            (before + line).push(span(repeated(' ', (widths[c] - used) as nat), plain_style()))
        } else {
            before + line
        };
        content.push(
            span(
                if count == widths.len() {
                    " │"@
                } else {
                    " │ "@
                },
                border_style(),
            ),
        )
    }
}

/// The grid lines of one table row: as many as its tallest cell needs.
pub open spec fn grid(
    cells: Seq<Seq<char>>,
    widths: Seq<usize>,
    header: bool,
    role: RoleView,
) -> Seq<RowView> {
    let columns = column_lines(cells, widths, header);
    Seq::new(
        if widths.len() == 0 {
            1
        } else {
            tallest(columns)
        },
        |r: int| styled_row(role, grid_parts(columns, widths, r, widths.len())),
    )
}

/// The wrapped lines of one cell.
fn wrap_cell(cell: &str, width: usize, header: bool) -> (lines: Vec<Vec<ProseSpan>>)
    ensures
        lines.deep_view() == cell_lines(cell@, width as nat, header),
{
    let parsed = parse_prose(cell);
    let ghost all = parsed.deep_view();
    let mut spans: Vec<ProseSpan> = Vec::new();
    let mut i: usize = 0;
    let ghost restyle = |s: SpanView|
        SpanView { text: s.text, style: cell_style(s.style, header) };
    while i < parsed.len()
        invariant
            i <= parsed.len(),
            all == parsed.deep_view(),
            restyle == (|s: SpanView|
                SpanView { text: s.text, style: cell_style(s.style, header) }),
            spans.len() == i,
            forall|k: int| 0 <= k < i ==> (#[trigger] spans@[k]).deep_view() == restyle(all[k]),
        decreases parsed.len() - i,
    {
        let style = if header {
            parsed[i].style.bold().colored(ProseColor::Accent)
        } else {
            parsed[i].style
        };
        spans.push(ProseSpan::of(parsed[i].text.as_str(), style));
        i += 1;
    }
    proof {
        assert(spans.deep_view() =~= all.map_values(restyle));
    }
    wrap_spans(&spans, width)
}

/// One grid line per wrapped row of the tallest column; other columns pad or
/// blank to keep the columns aligned.
pub fn grid_rows(cells: &Vec<String>, widths: &Vec<usize>, is_header: bool, role: &BlockRole) -> (rows:
    Vec<ProjectedRow>)
    ensures
        rows.deep_view() == grid(cells.deep_view(), widths@, is_header, role.deep_view()),
{
    let ghost texts = cells.deep_view();
    let ghost expected = column_lines(texts, widths@, is_header);
    let mut columns: Vec<Vec<Vec<ProseSpan>>> = Vec::new();
    let mut height: usize = 0;
    let mut c: usize = 0;
    while c < widths.len()
        invariant
            c <= widths.len(),
            texts == cells.deep_view(),
            expected == column_lines(texts, widths@, is_header),
            columns.len() == c,
            height == tallest(expected.take(c as int)),
            forall|k: int| 0 <= k < c ==> (#[trigger] columns@[k]).deep_view() == expected[k],
        decreases widths.len() - c,
    {
        let lines = if c < cells.len() {
            wrap_cell(cells[c].as_str(), widths[c], is_header)
        } else {
            wrap_cell(String::new().as_str(), widths[c], is_header)
        };
        proof {
            assert(lines.deep_view() == expected[c as int]);
            assert(expected.take(c as int + 1).drop_last() =~= expected.take(c as int));
        }
        if lines.len() > height {
            height = lines.len();
        }
        columns.push(lines);
        c += 1;
    }
    if widths.len() == 0 {
        height = 1;
    }
    proof {
        assert(expected.take(c as int) =~= expected);
    }
    let ghost count = widths@.len();
    let mut rows: Vec<ProjectedRow> = Vec::new();
    let mut r: usize = 0;
    while r < height
        invariant
            r <= height,
            columns.len() == widths.len(),
            count == widths@.len(),
            expected.len() == widths.len(),
            forall|k: int|
                0 <= k < columns.len() ==> (#[trigger] columns@[k]).deep_view() == expected[k],
            rows.len() == r,
            forall|k: int|
                0 <= k < r ==> (#[trigger] rows@[k]).deep_view() == styled_row(
                    role.deep_view(),
                    grid_parts(expected, widths@, k, count),
                ),
        decreases height - r,
    {
        let mut spans: Vec<ProseSpan> = Vec::new();
        spans.push(ProseSpan::of("│ ", border()));
        proof {
            assert(spans.deep_view() =~= grid_parts(expected, widths@, r as int, 0));
        }
        let mut c: usize = 0;
        while c < widths.len()
            invariant
                c <= widths.len(),
                columns.len() == widths.len(),
                forall|k: int|
                    0 <= k < columns.len() ==> (#[trigger] columns@[k]).deep_view() == expected[k],
                spans.deep_view() == grid_parts(expected, widths@, r as int, c as nat),
            decreases widths.len() - c,
        {
            let ghost before = spans.deep_view();
            assert(columns@[c as int].deep_view() == expected[c as int]);
            let ghost line = if r < expected[c as int].len() {
                expected[c as int][r as int]
            } else {
                Seq::<SpanView>::empty()
            };
            let mut used: usize = 0;
            if r < columns[c].len() {
                assert(columns@[c as int]@[r as int].deep_view() == line);
                push_copies(&mut spans, &columns[c][r]);
                used = spans_width(&columns[c][r]);
            }
            proof {
                assert(spans.deep_view() =~= before + line);
                assert(used == spans_cells(line));
            }
            let ghost placed = spans.deep_view();
            if used < widths[c] {
                let fill = ProseSpan::new(
                    strs::repeat_char(' ', widths[c] - used),
                    ProseStyle::default(),
                );
                spans.push(fill);
                proof {
                    assert(spans.deep_view() =~= placed.push(fill.deep_view()));
                }
            }
            let ghost padded = spans.deep_view();
            let bar = if c + 1 == widths.len() {
                ProseSpan::of(" │", border())
            } else {
                ProseSpan::of(" │ ", border())
            };
            spans.push(bar);
            proof {
                assert(spans.deep_view() =~= padded.push(bar.deep_view()));
            }
            c += 1;
        }
        rows.push(ProjectedRow::styled(role.copy(), spans));
        r += 1;
    }
    proof {
        assert(rows.deep_view() =~= grid(texts, widths@, is_header, role.deep_view()));
    }
    rows
}

// ---------------------------------------------------------------------------
// Flow fallback
// ---------------------------------------------------------------------------

/// Spans so far and the text since the last pipe.
pub struct FlowView {
    pub spans: Seq<SpanView>,
    pub plain: Seq<char>,
}

pub open spec fn flow_state(text: Seq<char>) -> FlowView
    decreases text.len(),
{
    if text.len() == 0 {
        FlowView { spans: Seq::empty(), plain: Seq::empty() }
    } else {
        let before = flow_state(text.drop_last());
        if text.last() == '|' {
            FlowView {
                spans: flow_flush(before).push(span("|"@, border_style())),
                plain: Seq::empty(),
            }
        } else {
            FlowView { spans: before.spans, plain: before.plain.push(text.last()) }
        }
    }
}

pub open spec fn flow_flush(state: FlowView) -> Seq<SpanView> {
    if state.plain.len() == 0 {
        state.spans
    } else {
        state.spans.push(span(state.plain, plain_style()))
    }
}

/// The exact text with its pipes dimmed.
pub open spec fn flow_spans(text: Seq<char>) -> Seq<SpanView> {
    flow_flush(flow_state(text))
}

pub open spec fn flow(text: Seq<char>, width: nat, role: RoleView) -> Seq<RowView> {
    wrapped_spans(flow_spans(text), width).map_values(|s: Seq<SpanView>| styled_row(role, s))
}

/// One styled row for each run of spans.
pub fn style_rows(lines: Vec<Vec<ProseSpan>>, role: &BlockRole) -> (rows: Vec<ProjectedRow>)
    ensures
        rows.deep_view() == lines.deep_view().map_values(
            |s: Seq<SpanView>| styled_row(role.deep_view(), s),
        ),
{
    let ghost all = lines.deep_view();
    let mut rows: Vec<ProjectedRow> = Vec::new();
    let mut i: usize = 0;
    while i < lines.len()
        invariant
            i <= lines.len(),
            all == lines.deep_view(),
            rows.len() == i,
            forall|k: int|
                0 <= k < i ==> (#[trigger] rows@[k]).deep_view() == styled_row(
                    role.deep_view(),
                    all[k],
                ),
        decreases lines.len() - i,
    {
        let mut spans: Vec<ProseSpan> = Vec::new();
        push_copies(&mut spans, &lines[i]);
        proof {
            assert(spans.deep_view() =~= all[i as int]);
        }
        rows.push(ProjectedRow::styled(role.copy(), spans));
        i += 1;
    }
    proof {
        assert(rows.deep_view() =~= all.map_values(
            |s: Seq<SpanView>| styled_row(role.deep_view(), s),
        ));
    }
    rows
}

/// Flow fallback: the row keeps its exact text, with pipes dimmed so the
/// tabular intent still reads on narrow screens.
pub fn flow_rows(text: &str, width: usize, role: &BlockRole) -> (rows: Vec<ProjectedRow>)
    ensures
        rows.deep_view() == flow(text@, width as nat, role.deep_view()),
{
    let chars = strs::chars_of(text);
    let mut spans: Vec<ProseSpan> = Vec::new();
    let mut plain = String::new();
    let mut i: usize = 0;
    proof {
        assert(spans.deep_view() =~= flow_state(chars@.take(0)).spans);
    }
    while i < chars.len()
        invariant
            i <= chars.len(),
            chars@ == text@,
            spans.deep_view() == flow_state(chars@.take(i as int)).spans,
            plain@ == flow_state(chars@.take(i as int)).plain,
        decreases chars.len() - i,
    {
        let ghost before = spans.deep_view();
        proof {
            assert(chars@.take(i as int + 1).drop_last() =~= chars@.take(i as int));
        }
        if chars[i] == '|' {
            if !plain.as_str().is_empty() {
                let item = ProseSpan::new(plain, ProseStyle::default());
                spans.push(item);
                proof {
                    assert(spans.deep_view() =~= before.push(item.deep_view()));
                }
            }
            plain = String::new();
            let ghost between = spans.deep_view();
            let pipe = ProseSpan::of("|", border());
            spans.push(pipe);
            proof {
                assert(spans.deep_view() =~= between.push(pipe.deep_view()));
            }
        } else {
            plain.push(chars[i]);
        }
        i += 1;
    }
    let ghost before = spans.deep_view();
    if !plain.as_str().is_empty() {
        let item = ProseSpan::new(plain, ProseStyle::default());
        spans.push(item);
        proof {
            assert(spans.deep_view() =~= before.push(item.deep_view()));
        }
    }
    proof {
        assert(chars@.take(i as int) =~= text@);
    }
    style_rows(wrap_spans(&spans, width), role)
}

// ---------------------------------------------------------------------------
// Whole tables
// ---------------------------------------------------------------------------

/// The rows of the flow fallback for a whole table.
pub open spec fn table_flow(rows: Seq<LogicalView>, width: nat) -> Seq<RowView>
    decreases rows.len(),
{
    if rows.len() == 0 {
        Seq::empty()
    } else {
        table_flow(rows.drop_last(), width) + flow(rows.last().text, width, rows.last().role)
    }
}

/// The grid rows of a whole table, without its outer borders.
pub open spec fn table_grid(rows: Seq<LogicalView>, widths: Seq<usize>) -> Seq<RowView>
    decreases rows.len(),
{
    if rows.len() == 0 {
        Seq::empty()
    } else {
        let before = table_grid(rows.drop_last(), widths);
        let row = rows.last();
        if row.role == RoleView::TableDelim {
            before.push(frame(widths, "├"@, "┼"@, "┤"@))
        } else {
            before + grid(row_cells(row.text), widths, row.role == RoleView::TableHeader, row.role)
        }
    }
}

/// A settled table: a framed grid, where every column can have at least one
/// cell between its bars and blanks; the flow fallback otherwise.
pub open spec fn table(rows: Seq<LogicalView>, width: nat) -> Seq<RowView> {
    let columns = row_cells(rows[0].text).len();
    if width >= 4 * columns + 1 {
        let widths = waterfilled(
            natural_widths(rows, columns),
            (width - 3 * columns - 1) as nat,
        );
        seq![frame(widths, "╭"@, "┬"@, "╮"@)] + table_grid(rows, widths).push(
            frame(widths, "╰"@, "┴"@, "╯"@),
        )
    } else {
        table_flow(rows, width)
    }
}

/// Projects the table `from..to` of the lines into a full-frame grid, or the
/// flow fallback when even one cell per column cannot fit. When the natural
/// grid overflows, the widest columns shrink first.
pub fn project_table(lines: &Vec<LogicalLine>, from: usize, to: usize, width: usize) -> (rows: Vec<
    ProjectedRow,
>)
    requires
        from < to <= lines.len(),
    ensures
        rows.deep_view() == table(
            lines.deep_view().subrange(from as int, to as int),
            width as nat,
        ),
{
    let ghost all = lines.deep_view();
    let ghost run = all.subrange(from as int, to as int);
    let columns = split_cells(lines[from].text.as_str()).len();
    assert(run[0].text == lines@[from as int].text@);
    let mut out: Vec<ProjectedRow> = Vec::new();
    let mut i: usize = from;
    if width < 5 || columns > (width - 1) / 4 {
        proof {
            assert(out.deep_view() =~= table_flow(all.subrange(from as int, i as int), width as nat));
        }
        while i < to
            invariant
                from <= i <= to <= lines.len(),
                all == lines.deep_view(),
                out.deep_view() == table_flow(
                    all.subrange(from as int, i as int),
                    width as nat,
                ),
            decreases to - i,
        {
            let ghost before = out.deep_view();
            proof {
                let grown = all.subrange(from as int, i as int + 1);
                assert(grown.drop_last() =~= all.subrange(from as int, i as int));
                assert(grown.last() == all[i as int]);
            }
            let mut more = flow_rows(lines[i].text.as_str(), width, &lines[i].role);
            let ghost added = more.deep_view();
            out.append(&mut more);
            proof {
                assert(out.deep_view() =~= before + added);
            }
            i += 1;
        }
        return out;
    }
    let naturals = measure_columns(lines, from, to, columns);
    let budget: usize = width - 3 * columns - 1;
    let widths = waterfill(&naturals, budget);
    proof {
        waterfill_bounds(naturals@, budget as nat);
        assert forall|c: int| 0 <= c < widths.len() implies #[trigger] widths@[c] <= usize::MAX
            - 2 by {
            total_covers(widths@, c);
        }
    }
    let ghost head = frame(widths@, "╭"@, "┬"@, "╮"@);
    out.push(frame_row(&widths, "╭", "┬", "╮"));
    proof {
        assert(all.subrange(from as int, from as int) =~= Seq::<LogicalView>::empty());
        assert(out.deep_view() =~= seq![head] + table_grid(
            all.subrange(from as int, i as int),
            widths@,
        ));
    }
    while i < to
        invariant
            from <= i <= to <= lines.len(),
            all == lines.deep_view(),
            forall|c: int| 0 <= c < widths.len() ==> #[trigger] widths@[c] <= usize::MAX - 2,
            out.deep_view() == seq![head] + table_grid(
                all.subrange(from as int, i as int),
                widths@,
            ),
        decreases to - i,
    {
        let ghost before = out.deep_view();
        let ghost earlier = table_grid(all.subrange(from as int, i as int), widths@);
        proof {
            let grown = all.subrange(from as int, i as int + 1);
            assert(grown.drop_last() =~= all.subrange(from as int, i as int));
            assert(grown.last() == all[i as int]);
        }
        if matches!(lines[i].role, BlockRole::TableDelim) {
            let row = frame_row(&widths, "├", "┼", "┤");
            out.push(row);
            proof {
                assert(out.deep_view() =~= before.push(row.deep_view()));
                assert(before.push(row.deep_view()) =~= seq![head] + earlier.push(row.deep_view()));
            }
        } else {
            let is_header = matches!(lines[i].role, BlockRole::TableHeader);
            let cells = split_cells(lines[i].text.as_str());
            let mut more = grid_rows(&cells, &widths, is_header, &lines[i].role);
            let ghost added = more.deep_view();
            out.append(&mut more);
            proof {
                assert(out.deep_view() =~= before + added);
                assert(before + added =~= seq![head] + (earlier + added));
            }
        }
        i += 1;
    }
    let ghost before = out.deep_view();
    let foot = frame_row(&widths, "╰", "┴", "╯");
    out.push(foot);
    proof {
        assert(out.deep_view() =~= before.push(foot.deep_view()));
        assert(out.deep_view() =~= seq![head] + table_grid(run, widths@).push(foot.deep_view()));
    }
    out
}

proof fn total_covers(widths: Seq<usize>, at: int)
    requires
        0 <= at < widths.len(),
    ensures
        widths[at] <= total(widths),
    decreases widths.len(),
{
    if at < widths.len() - 1 {
        total_covers(widths.drop_last(), at);
    }
}

/// The cells of a row are what stands between its bars, trimmed.
pub proof fn cells_stand_between_bars(cells: Seq<Seq<char>>)
    requires
        cells.len() > 0,
        forall|c: int| 0 <= c < cells.len() ==> !(#[trigger] cells[c]).contains('|'),
    ensures
        row_cells(seq!['|'] + join(cells, seq!['|']) + seq!['|']).len() == cells.len(),
        forall|c: int|
            0 <= c < cells.len() ==> #[trigger] row_cells(
                seq!['|'] + join(cells, seq!['|']) + seq!['|'],
            )[c] == trim(cells[c]),
{
    let inner = join(cells, seq!['|']);
    let line = seq!['|'] + inner + seq!['|'];
    strs::trimming_leaves_the_core(Seq::empty(), line, Seq::empty());
    assert(Seq::<char>::empty() + line + Seq::<char>::empty() =~= line);
    assert(line.skip(1) =~= inner.push('|'));
    assert(unframed(line) =~= inner);
    strs::split_inverts_join(cells, '|');
}

/// Whether some row above the delimiter or below it has a cell of this width in
/// the column.
pub open spec fn some_cell_has(rows: Seq<LogicalView>, column: int, width: usize) -> bool {
    exists|r: int|
        0 <= r < rows.len() && (#[trigger] rows[r]).role != RoleView::TableDelim && column
            < row_cells(rows[r].text).len() && cell_width(row_cells(rows[r].text)[column]) == width
}

/// A column is naturally as wide as its widest cell: no cell of it is wider, and
/// one of them is that wide unless they are all empty.
pub proof fn columns_are_as_wide_as_their_widest_cell(
    rows: Seq<LogicalView>,
    columns: nat,
    column: int,
)
    requires
        0 <= column < columns,
    ensures
        natural_widths(rows, columns).len() == columns,
        forall|r: int|
            0 <= r < rows.len() && (#[trigger] rows[r]).role != RoleView::TableDelim && column
                < row_cells(rows[r].text).len() ==> natural_widths(rows, columns)[column]
                >= cell_width(row_cells(rows[r].text)[column]) && natural_widths(
                rows,
                columns,
            )[column] >= 1,
        natural_widths(rows, columns)[column] > 1 ==> some_cell_has(
            rows,
            column,
            natural_widths(rows, columns)[column],
        ),
    decreases rows.len(),
{
    if rows.len() > 0 {
        let before = rows.drop_last();
        columns_are_as_wide_as_their_widest_cell(before, columns, column);
        let old_width = natural_widths(before, columns)[column];
        let width = natural_widths(rows, columns)[column];
        assert forall|r: int|
            0 <= r < rows.len() && (#[trigger] rows[r]).role != RoleView::TableDelim && column
                < row_cells(rows[r].text).len() implies width >= cell_width(
            row_cells(rows[r].text)[column],
        ) && width >= 1 by {
            if r < before.len() {
                assert(before[r] == rows[r]);
            }
        }
        if width > 1 {
            if width == old_width {
                let r = choose|r: int|
                    0 <= r < before.len() && (#[trigger] before[r]).role != RoleView::TableDelim
                        && column < row_cells(before[r].text).len() && cell_width(
                        row_cells(before[r].text)[column],
                    ) == width;
                assert(rows[r] == before[r]);
            } else {
                assert(rows[rows.len() - 1] == rows.last());
            }
            assert(some_cell_has(rows, column, width));
        }
    }
}

proof fn shares_stay(left: int, waiting: int, taken: int, fair: int)
    requires
        waiting >= 2,
        left >= fair * waiting,
        taken <= left / waiting,
        fair >= 0,
    ensures
        left - taken >= fair * (waiting - 1),
{
    assert(left - taken >= fair * (waiting - 1)) by (nonlinear_arith)
        requires
            waiting >= 2,
            left >= fair * waiting,
            taken <= left / waiting,
            fair >= 0,
    {
        let share = left / waiting;
        assert(share * waiting <= left);
        assert(left - taken >= left - share);
        assert(share >= fair);
        assert(left - share >= share * waiting - share);
        assert(share * waiting - share == share * (waiting - 1));
        assert(share * (waiting - 1) >= fair * (waiting - 1));
    }
}

/// Whether each of the first `ranks` columns of the ranking has its natural
/// width or at least `fair` cells.
spec fn served(naturals: Seq<usize>, budget: int, ranks: nat, fair: int) -> bool {
    let order = widest_first(naturals, naturals.len());
    forall|k: int|
        0 <= k < ranks ==> filled(naturals, budget, ranks).widths[#[trigger] order[k]]
            == naturals[order[k]] || filled(naturals, budget, ranks).widths[order[k]] >= fair
}

proof fn serving(naturals: Seq<usize>, budget: int, ranks: nat, fair: int)
    requires
        1 <= naturals.len() <= budget <= usize::MAX,
        ranks <= naturals.len(),
        fair == budget / (naturals.len() as int),
    ensures
        ranks < naturals.len() ==> filled(naturals, budget, ranks).left >= fair * (naturals.len()
            - ranks),
        served(naturals, budget, ranks, fair),
    decreases ranks,
{
    let n = naturals.len() as int;
    if ranks == 0 {
        assert(budget >= (budget / n) * n) by (nonlinear_arith)
            requires
                n >= 1,
                budget >= 0,
        ;
    } else {
        let earlier = (ranks - 1) as nat;
        serving(naturals, budget, earlier, fair);
        filling(naturals, budget, earlier);
        filling(naturals, budget, ranks);
        widest_first_is_ranking(naturals, naturals.len());
        let order = widest_first(naturals, naturals.len());
        let before = filled(naturals, budget, earlier);
        let state = filled(naturals, budget, ranks);
        let waiting = n - earlier;
        let column = order[ranks - 1];
        let share = before.left / waiting;
        let taken = state.widths[column];
        share_leaves_enough(before.left, waiting);
        assert(taken <= share);
        assert(fair >= 0) by (nonlinear_arith)
            requires
                fair == budget / n,
                n >= 1,
                budget >= 0,
        ;
        if ranks < n {
            shares_stay(before.left, waiting, taken as int, fair);
        }
        assert(share >= fair) by (nonlinear_arith)
            requires
                share == before.left / waiting,
                before.left >= fair * waiting,
                waiting >= 1,
        ;
        assert forall|k: int| 0 <= k < ranks implies state.widths[#[trigger] order[k]]
            == naturals[order[k]] || state.widths[order[k]] >= fair by {
            if k < ranks - 1 {
                assert(order[k] != order[ranks - 1]);
                assert(state.widths[order[k]] == before.widths[order[k]]);
            }
        }
    }
}

/// Every column keeps its natural width, or gets at least an equal part of the
/// cells there are: a narrow column does not pay for a wide one. Where all
/// columns fit, none shrinks.
pub proof fn columns_get_a_fair_share(naturals: Seq<usize>, budget: nat, column: int)
    requires
        naturals.len() <= budget <= usize::MAX,
        0 <= column < naturals.len(),
    ensures
        waterfilled(naturals, budget)[column] == naturals[column] || waterfilled(
            naturals,
            budget,
        )[column] >= budget / naturals.len(),
        total(naturals) <= budget ==> waterfilled(naturals, budget)[column] == naturals[column],
{
    if total(naturals) > budget {
        let n = naturals.len();
        let fair = budget as int / n as int;
        serving(naturals, budget as int, n, fair);
        let order = widest_first(naturals, n);
        ranking_is_onto(order, naturals, n, column);
        let k = choose|k: int| 0 <= k < n && order[k] == column;
        assert(filled(naturals, budget as int, n).widths[order[k]] == naturals[order[k]] || filled(
            naturals,
            budget as int,
            n,
        ).widths[order[k]] >= fair);
    }
}

/// The dashes over every column: as many as it is wide, and one for the blank on
/// each side.
pub open spec fn dashes(widths: Seq<usize>) -> Seq<Seq<char>> {
    widths.map_values(|width: usize| repeated('─', width as nat + 2))
}

proof fn one_more_said(spans: Seq<SpanView>, next: SpanView)
    ensures
        super::style::spans_text(spans.push(next)) == super::style::spans_text(spans) + next.text,
{
    assert(spans.push(next).drop_last() =~= spans);
}

proof fn segments_join(widths: Seq<usize>, mid: Seq<char>)
    ensures
        super::style::spans_text(frame_segments(widths, mid)) == join(dashes(widths), mid),
    decreases widths.len(),
{
    if widths.len() > 0 {
        let before = widths.drop_last();
        segments_join(before, mid);
        let earlier = frame_segments(before, mid);
        let segment = span(repeated('─', widths.last() as nat + 2), border_style());
        assert(dashes(widths).drop_last() =~= dashes(before));
        if widths.len() == 1 {
            one_more_said(earlier, segment);
            assert(super::style::spans_text(earlier) =~= Seq::<char>::empty());
            assert(super::style::spans_text(frame_segments(widths, mid)) =~= dashes(widths)[0]);
        } else {
            one_more_said(earlier, span(mid, border_style()));
            one_more_said(earlier.push(span(mid, border_style())), segment);
        }
    } else {
        assert(super::style::spans_text(frame_segments(widths, mid)) =~= join(dashes(widths), mid));
    }
}

/// A border reads as its left corner, the dashes of every column with a junction
/// between each two, and its right corner.
pub proof fn borders_span_every_column(
    widths: Seq<usize>,
    left: Seq<char>,
    mid: Seq<char>,
    right: Seq<char>,
)
    ensures
        frame(widths, left, mid, right).text == left + join(dashes(widths), mid) + right,
{
    segments_join(widths, mid);
    let corner = seq![span(left, border_style())];
    let segments = frame_segments(widths, mid);
    super::flow::spans_text_add(corner, segments);
    assert(corner.drop_last() =~= Seq::<SpanView>::empty());
    assert(super::style::spans_text(corner.drop_last()) =~= Seq::<char>::empty());
    assert(super::style::spans_text(corner) =~= left);
    one_more_said(corner + segments, span(right, border_style()));
}

/// A table with room for its columns is framed: a border above and one below, and
/// between them the lines of its rows in order, the delimiter as a border of its
/// own. Without that room its rows flow as they are, in order too.
pub proof fn tables_show_their_rows_in_order(
    rows: Seq<LogicalView>,
    row: LogicalView,
    widths: Seq<usize>,
    width: nat,
)
    ensures
        row.role != RoleView::TableDelim ==> table_grid(rows.push(row), widths) == table_grid(
            rows,
            widths,
        ) + grid(row_cells(row.text), widths, row.role == RoleView::TableHeader, row.role),
        row.role == RoleView::TableDelim ==> table_grid(rows.push(row), widths) == table_grid(
            rows,
            widths,
        ).push(frame(widths, "├"@, "┼"@, "┤"@)),
        table_flow(rows.push(row), width) == table_flow(rows, width) + flow(
            row.text,
            width,
            row.role,
        ),
        rows.len() > 0 && width >= 4 * row_cells(rows[0].text).len() + 1 ==> table(rows, width)
            == framed(
            rows,
            waterfilled(
                natural_widths(rows, row_cells(rows[0].text).len()),
                (width - 3 * row_cells(rows[0].text).len() - 1) as nat,
            ),
        ),
        rows.len() > 0 && width < 4 * row_cells(rows[0].text).len() + 1 ==> table(rows, width)
            == table_flow(rows, width),
{
    assert(rows.push(row).drop_last() =~= rows);
    if rows.len() > 0 {
        let columns = row_cells(rows[0].text).len();
        if width >= 4 * columns + 1 {
            let given = waterfilled(natural_widths(rows, columns), (width - 3 * columns - 1) as nat);
            assert(table(rows, width) =~= framed(rows, given));
        }
    }
}

/// The rows of a table between its two outer borders.
pub open spec fn framed(rows: Seq<LogicalView>, widths: Seq<usize>) -> Seq<RowView> {
    seq![frame(widths, "╭"@, "┬"@, "╮"@)] + table_grid(rows, widths) + seq![
        frame(widths, "╰"@, "┴"@, "╯"@),
    ]
}

/// A row of a table takes as many lines as its tallest cell, and no fewer than any
/// of its cells needs.
pub proof fn rows_are_as_tall_as_their_tallest_cell(columns: Seq<Seq<Seq<SpanView>>>, c: int)
    requires
        0 <= c < columns.len(),
    ensures
        tallest(columns) >= columns[c].len(),
        exists|k: int| 0 <= k < columns.len() && tallest(columns) == (#[trigger] columns[k]).len(),
    decreases columns.len(),
{
    let before = columns.drop_last();
    if c < before.len() {
        assert(before[c] == columns[c]);
        rows_are_as_tall_as_their_tallest_cell(before, c);
    } else if before.len() > 0 {
        rows_are_as_tall_as_their_tallest_cell(before, 0);
    }
    if before.len() > 0 && tallest(before) >= columns.last().len() {
        let k = choose|k: int|
            0 <= k < before.len() && tallest(before) == (#[trigger] before[k]).len();
        assert(columns[k] == before[k]);
    } else {
        assert(columns[columns.len() - 1] == columns.last());
        if before.len() == 0 {
            assert(tallest(before) == 0);
        }
    }
}

/// Each column shows its own cell, and nothing where the row has too few; a
/// header's cells stand out, and those of other rows keep their styles.
pub proof fn columns_show_their_own_cell(
    cells: Seq<Seq<char>>,
    widths: Seq<usize>,
    c: int,
    style: ProseStyle,
)
    requires
        0 <= c < widths.len(),
    ensures
        column_lines(cells, widths, false).len() == widths.len(),
        c < cells.len() ==> column_lines(cells, widths, false)[c] == wrapped_spans(
            prose_spans(cells[c]),
            widths[c] as nat,
        ),
        c >= cells.len() ==> column_lines(cells, widths, false)[c] == wrapped_spans(
            prose_spans(Seq::empty()),
            widths[c] as nat,
        ),
        cell_style(style, true).bold && cell_style(style, true).color == ProseColor::Accent
            && cell_style(style, true).italic == style.italic,
        cell_style(style, false) == style,
{
    let cell = if c < cells.len() {
        cells[c]
    } else {
        Seq::empty()
    };
    assert(prose_spans(cell).map_values(
        |s: SpanView| SpanView { text: s.text, style: cell_style(s.style, false) },
    ) =~= prose_spans(cell));
}

/// A cell stands at the left of its column: behind the bar comes what it says on
/// that line, then blanks up to the column's width, then the next bar.
pub proof fn cells_stand_left_in_their_column(
    columns: Seq<Seq<Seq<SpanView>>>,
    widths: Seq<usize>,
    r: int,
    c: int,
)
    requires
        0 <= c < widths.len() == columns.len(),
        0 <= r < columns[c].len(),
        spans_cells(columns[c][r]) <= widths[c],
    ensures
        super::style::spans_text(grid_parts(columns, widths, r, (c + 1) as nat))
            == super::style::spans_text(grid_parts(columns, widths, r, c as nat))
            + super::style::spans_text(columns[c][r]) + repeated(
            ' ',
            (widths[c] - spans_cells(columns[c][r])) as nat,
        ) + (if c + 1 == widths.len() {
            " │"@
        } else {
            " │ "@
        }),
        super::style::spans_text(grid_parts(columns, widths, r, 0)) == "│ "@,
{
    let before = grid_parts(columns, widths, r, c as nat);
    let line = columns[c][r];
    let used = spans_cells(line);
    super::flow::spans_text_add(before, line);
    let fill = span(repeated(' ', (widths[c] - used) as nat), plain_style());
    one_more_said(before + line, fill);
    let content = if used < widths[c] {
        (before + line).push(fill)
    } else {
        before + line
    };
    let said = super::style::spans_text(before) + super::style::spans_text(line);
    if used == widths[c] {
        assert(said + repeated(' ', 0) =~= said);
    }
    let bar = span(
        if c + 1 == widths.len() {
            " │"@
        } else {
            " │ "@
        },
        border_style(),
    );
    one_more_said(content, bar);
    let first = seq![span("│ "@, border_style())];
    assert(first.drop_last() =~= Seq::<SpanView>::empty());
    assert(super::style::spans_text(first.drop_last()) =~= Seq::<char>::empty());
    assert(super::style::spans_text(first) =~= "│ "@);
}

} // verus!
