//! Transcript selection in wrapped-cell coordinates.
//!
//! A position is `(cell, row_in_cell, column)`, the same space as the scroll
//! pin.

use vstd::prelude::*;

use super::cells::{VisibleSlice, VisibleView};
use super::text;
use super::text::{cell_width, columns, wrapped};
use super::transcript::{LineView, TranscriptLine};
use crate::strs;
use crate::strs::join;

verus! {

/// A rectangular region of the screen, in terminal cells.
#[derive(Clone, Copy, Debug, PartialEq, Eq, Structural)]
pub struct BandLayout {
    pub x: u16,
    pub y: u16,
    pub width: u16,
    pub height: u16,
}

/// The end of a run of cells, no further than the largest coordinate.
pub open spec fn edge(from: u16, len: u16) -> int {
    if from + len > u16::MAX {
        u16::MAX as int
    } else {
        from + len
    }
}

/// Whether the band has no cell.
pub open spec fn void(band: BandLayout) -> bool {
    band.width == 0 || band.height == 0
}

/// Whether a cell of the screen belongs to the band.
pub open spec fn inside(band: BandLayout, x: u16, y: u16) -> bool {
    !void(band) && band.x <= x < edge(band.x, band.width) && band.y <= y < edge(
        band.y,
        band.height,
    )
}

impl BandLayout {
    pub fn from_parts(x: u16, y: u16, width: u16, height: u16) -> (band: BandLayout)
        ensures
            band == (BandLayout { x, y, width, height }),
    {
        BandLayout { x, y, width, height }
    }

    pub fn is_empty(self) -> (yes: bool)
        ensures
            yes == void(self),
    {
        self.width == 0 || self.height == 0
    }

    pub fn contains(self, x: u16, y: u16) -> (yes: bool)
        ensures
            yes == inside(self, x, y),
    {
        !self.is_empty() && x >= self.x && y >= self.y && x < self.x.saturating_add(self.width) && y
            < self.y.saturating_add(self.height)
    }

    /// Column and row relative to the band origin.
    pub fn relative(self, x: u16, y: u16) -> (pos: Option<(usize, usize)>)
        ensures
            pos == (if inside(self, x, y) {
                Some(((x - self.x) as usize, (y - self.y) as usize))
            } else {
                None
            }),
    {
        if !self.contains(x, y) {
            return None;
        }
        Some(((x - self.x) as usize, (y - self.y) as usize))
    }

    pub fn above(self, y: u16) -> (yes: bool)
        ensures
            yes == (!void(self) && y < self.y),
    {
        !self.is_empty() && y < self.y
    }

    pub fn below(self, y: u16) -> (yes: bool)
        ensures
            yes == (!void(self) && y >= edge(self.y, self.height)),
    {
        !self.is_empty() && y >= self.y.saturating_add(self.height)
    }
}

impl Default for BandLayout {
    fn default() -> (band: BandLayout)
        ensures
            band == (BandLayout { x: 0, y: 0, width: 0, height: 0 }),
    {
        BandLayout { x: 0, y: 0, width: 0, height: 0 }
    }
}

/// A place in the wrapped transcript.
#[derive(Clone, Copy, Debug, PartialEq, Eq, PartialOrd, Ord, Structural)]
pub struct SelectPos {
    pub cell: usize,
    pub row: usize,
    pub col: usize,
}

/// Whether one wrapped row comes before another.
pub open spec fn row_before(a: (usize, usize), b: (usize, usize)) -> bool {
    a.0 < b.0 || (a.0 == b.0 && a.1 < b.1)
}

/// Whether position `a` is at or before position `b`, in reading order.
pub open spec fn at_or_before(a: SelectPos, b: SelectPos) -> bool {
    row_before((a.cell, a.row), (b.cell, b.row)) || (a.cell == b.cell && a.row == b.row && a.col
        <= b.col)
}

fn rows_ordered(a: (usize, usize), b: (usize, usize)) -> (yes: bool)
    ensures
        yes == row_before(a, b),
{
    a.0 < b.0 || (a.0 == b.0 && a.1 < b.1)
}

/// A selection from where the pointer went down to where it is.
#[derive(Clone, Copy, Debug, PartialEq, Eq, Structural)]
pub struct Selection {
    pub anchor: SelectPos,
    pub head: SelectPos,
    pub dragging: bool,
}

/// The two ends in reading order.
pub open spec fn ends(selection: Selection) -> (SelectPos, SelectPos) {
    if at_or_before(selection.anchor, selection.head) {
        (selection.anchor, selection.head)
    } else {
        (selection.head, selection.anchor)
    }
}

/// The columns of one wrapped row that the selection covers: all of a row in
/// between, from the start column on its first row, up to the end column on its
/// last.
pub open spec fn covered(
    selection: Selection,
    cell: usize,
    row: usize,
    row_width: usize,
) -> Option<(usize, usize)> {
    let (start, end) = ends(selection);
    let here = (cell, row);
    if row_before(here, (start.cell, start.row)) || row_before((end.cell, end.row), here) {
        None
    } else {
        let from = if here == (start.cell, start.row) {
            if start.col < row_width {
                start.col
            } else {
                row_width
            }
        } else {
            0
        };
        let to = if here == (end.cell, end.row) {
            if end.col < row_width {
                end.col
            } else {
                row_width
            }
        } else {
            row_width
        };
        Some(
            (
                from,
                if to > from {
                    to
                } else {
                    from
                },
            ),
        )
    }
}

impl Selection {
    pub fn start(pos: SelectPos) -> (selection: Selection)
        ensures
            selection == (Selection { anchor: pos, head: pos, dragging: true }),
    {
        Selection { anchor: pos, head: pos, dragging: true }
    }

    pub fn normalized(self) -> (pair: (SelectPos, SelectPos))
        ensures
            pair == ends(self),
    {
        let a = self.anchor;
        let b = self.head;
        if rows_ordered((a.cell, a.row), (b.cell, b.row)) || (a.cell == b.cell && a.row == b.row
            && a.col <= b.col) {
            (a, b)
        } else {
            (b, a)
        }
    }

    pub fn is_collapsed(self) -> (yes: bool)
        ensures
            yes == (self.anchor == self.head),
    {
        self.anchor == self.head
    }

    /// Inclusive-start, exclusive-end columns on one wrapped row, if it
    /// intersects this selection. Empty rows in between still return `(0, 0)` so
    /// a visual-line copy keeps the blank line.
    pub fn columns_on_row(self, cell: usize, row: usize, row_width: usize) -> (range: Option<
        (usize, usize),
    >)
        ensures
            range == covered(self, cell, row, row_width),
    {
        let (start, end) = self.normalized();
        if rows_ordered((cell, row), (start.cell, start.row)) || rows_ordered(
            (end.cell, end.row),
            (cell, row),
        ) {
            return None;
        }
        let from: usize = if cell == start.cell && row == start.row {
            if start.col < row_width {
                start.col
            } else {
                row_width
            }
        } else {
            0
        };
        let to: usize = if cell == end.cell && row == end.row {
            if end.col < row_width {
                end.col
            } else {
                row_width
            }
        } else {
            row_width
        };
        Some(
            (
                from,
                if to > from {
                    to
                } else {
                    from
                },
            ),
        )
    }
}

/// The wrapped rows a pointer moves over; one empty row in zero cells.
pub open spec fn pointer_rows(cell: LineView, width: nat) -> Seq<Seq<char>> {
    if width == 0 {
        seq![Seq::empty()]
    } else {
        wrapped(cell.text, width)
    }
}

/// A position moved onto the rows that are there.
pub open spec fn clamped_pos(pos: SelectPos, cells: Seq<LineView>, width: nat) -> SelectPos {
    if cells.len() == 0 {
        SelectPos { cell: 0, row: 0, col: 0 }
    } else {
        let index = if pos.cell < cells.len() {
            pos.cell
        } else {
            (cells.len() - 1) as usize
        };
        let rows = pointer_rows(cells[index as int], width);
        let row = if rows.len() == 0 {
            0
        } else if pos.row < rows.len() {
            pos.row
        } else {
            (rows.len() - 1) as usize
        };
        let col = if row < rows.len() {
            if pos.col < cell_width(rows[row as int]) {
                pos.col
            } else {
                cell_width(rows[row as int])
            }
        } else {
            0
        };
        SelectPos { cell: index, row, col }
    }
}

/// Keep a pointer inside the current wrap of the display list.
pub fn clamp_pos(pos: SelectPos, cells: &Vec<TranscriptLine>, width: usize) -> (result: SelectPos)
    ensures
        result == clamped_pos(pos, cells.deep_view(), width as nat),
{
    if cells.len() == 0 {
        return SelectPos { cell: 0, row: 0, col: 0 };
    }
    let index = if pos.cell < cells.len() {
        pos.cell
    } else {
        cells.len() - 1
    };
    assert(cells.deep_view()[index as int] == cells@[index as int].deep_view());
    let mut rows: Vec<String> = Vec::new();
    if width == 0 {
        rows.push(String::new());
        proof {
            assert(rows.deep_view() =~= seq![Seq::<char>::empty()]);
        }
    } else {
        rows = text::wrap(cells[index].text.as_str(), width);
    }
    let ghost texts = rows.deep_view();
    assert(texts == pointer_rows(cells.deep_view()[index as int], width as nat));
    if rows.len() == 0 {
        return SelectPos { cell: index, row: 0, col: 0 };
    }
    let row = if pos.row < rows.len() {
        pos.row
    } else {
        rows.len() - 1
    };
    assert(texts[row as int] == rows@[row as int]@);
    let limit = text::width(rows[row].as_str());
    SelectPos {
        cell: index,
        row,
        col: if pos.col < limit {
            pos.col
        } else {
            limit
        },
    }
}

/// The position under a cell of the window; below the last row, the end of that
/// row.
pub open spec fn hit(rows: Seq<VisibleView>, col: usize, row: usize) -> Option<SelectPos> {
    if rows.len() == 0 {
        None
    } else {
        let index = if row < rows.len() {
            row as int
        } else {
            rows.len() - 1
        };
        let limit = cell_width(rows[index].text);
        Some(
            SelectPos {
                cell: rows[index].cell_index,
                row: rows[index].row_in_cell,
                col: if row < rows.len() && col < limit {
                    col
                } else {
                    limit
                },
            },
        )
    }
}

pub fn hit_history(slice: &VisibleSlice, col: usize, row: usize) -> (pos: Option<SelectPos>)
    ensures
        pos == hit(slice.deep_view().rows, col, row),
{
    if slice.rows.len() == 0 {
        return None;
    }
    let index = if row < slice.rows.len() {
        row
    } else {
        slice.rows.len() - 1
    };
    let visible = &slice.rows[index];
    assert(slice.deep_view().rows[index as int] == visible.deep_view());
    let limit = text::width(visible.text.as_str());
    Some(
        SelectPos {
            cell: visible.cell_index,
            row: visible.row_in_cell,
            col: if row < slice.rows.len() && col < limit {
                col
            } else {
                limit
            },
        },
    )
}

/// The selected parts of the first `count` rows of one cell.
pub open spec fn cell_parts(
    rows: Seq<Seq<char>>,
    cell: usize,
    selection: Selection,
    count: nat,
) -> Seq<Seq<char>>
    decreases count,
{
    if count == 0 {
        Seq::empty()
    } else {
        let r = count - 1;
        let before = cell_parts(rows, cell, selection, r as nat);
        match covered(selection, cell, r as usize, cell_width(rows[r])) {
            Some((from, to)) => before.push(columns(rows[r], from as nat, to as nat)),
            None => before,
        }
    }
}

/// The selected parts of the first `count` cells.
pub open spec fn selected_parts(
    cells: Seq<LineView>,
    width: nat,
    selection: Selection,
    count: nat,
) -> Seq<Seq<char>>
    decreases count,
{
    if count == 0 {
        Seq::empty()
    } else {
        let c = count - 1;
        let rows = wrapped(cells[c].text, width);
        selected_parts(cells, width, selection, c as nat) + cell_parts(
            rows,
            c as usize,
            selection,
            rows.len(),
        )
    }
}

/// The selected text: the covered columns of every wrapped row, one row per
/// line; nothing for a collapsed selection or in zero cells.
pub open spec fn selected_text(
    cells: Seq<LineView>,
    width: nat,
    selection: Selection,
) -> Seq<char> {
    if selection.anchor == selection.head || width == 0 {
        Seq::empty()
    } else {
        join(selected_parts(cells, width, selection, cells.len()), "\n"@)
    }
}

/// Visual-line copy: selected wrapped rows joined by newlines.
pub fn extract_text(cells: &Vec<TranscriptLine>, width: usize, selection: Selection) -> (text:
    String)
    ensures
        text@ == selected_text(cells.deep_view(), width as nat, selection),
{
    if selection.is_collapsed() || width == 0 {
        return String::new();
    }
    let ghost all = cells.deep_view();
    let mut parts: Vec<String> = Vec::new();
    let mut i: usize = 0;
    proof {
        assert(parts.deep_view() =~= Seq::<Seq<char>>::empty());
    }
    while i < cells.len()
        invariant
            i <= cells.len(),
            all == cells.deep_view(),
            parts.deep_view() == selected_parts(all, width as nat, selection, i as nat),
        decreases cells.len() - i,
    {
        let rows = text::wrap(cells[i].text.as_str(), width);
        let ghost texts = rows.deep_view();
        let ghost before = parts.deep_view();
        assert(texts == wrapped(all[i as int].text, width as nat));
        let mut r: usize = 0;
        proof {
            assert(before + cell_parts(texts, i, selection, 0) =~= before);
        }
        while r < rows.len()
            invariant
                r <= rows.len(),
                texts == rows.deep_view(),
                parts.deep_view() == before + cell_parts(texts, i, selection, r as nat),
            decreases rows.len() - r,
        {
            let ghost earlier = parts.deep_view();
            let ghost sofar = cell_parts(texts, i, selection, r as nat);
            let row = rows[r].as_str();
            assert(texts[r as int] == row@);
            if let Some((from, to)) = selection.columns_on_row(i, r, text::width(row)) {
                let part = text::slice_columns(row, from, to);
                parts.push(part);
                proof {
                    assert(parts.deep_view() =~= earlier.push(part@));
                    assert(earlier.push(part@) =~= before + sofar.push(part@));
                }
            }
            r += 1;
        }
        i += 1;
    }
    strs::joined(&parts, "\n")
}

// ---------------------------------------------------------------------------
// Laws
// ---------------------------------------------------------------------------

/// The ends of a selection are in reading order, whichever way it was dragged.
pub proof fn ends_are_ordered(selection: Selection)
    ensures
        at_or_before(ends(selection).0, ends(selection).1),
        ends(
            Selection {
                anchor: selection.head,
                head: selection.anchor,
                dragging: selection.dragging,
            },
        ) == ends(selection),
{
}

/// A covered range lies within its row.
pub proof fn covered_range_is_within_the_row(
    selection: Selection,
    cell: usize,
    row: usize,
    row_width: usize,
)
    ensures
        match covered(selection, cell, row, row_width) {
            Some((from, to)) => from <= to <= row_width,
            None => true,
        },
{
}

/// A row strictly between the two ends is covered as a whole.
pub proof fn rows_in_between_are_covered(
    selection: Selection,
    cell: usize,
    row: usize,
    row_width: usize,
)
    requires
        row_before((ends(selection).0.cell, ends(selection).0.row), (cell, row)),
        row_before((cell, row), (ends(selection).1.cell, ends(selection).1.row)),
    ensures
        covered(selection, cell, row, row_width) == Some((0usize, row_width)),
{
}

/// Whether one place comes strictly before another in reading order: by cell, then
/// by row, then by column.
pub open spec fn reads_before(a: SelectPos, b: SelectPos) -> bool {
    if a.cell != b.cell {
        a.cell < b.cell
    } else if a.row != b.row {
        a.row < b.row
    } else {
        a.col < b.col
    }
}

/// A column of a row is selected exactly if it is not before the earlier of the
/// two ends and is before the later one in reading order, whichever of them the
/// drag began at.
pub proof fn selection_is_what_lies_between_its_ends(
    selection: Selection,
    place: SelectPos,
    row_width: usize,
)
    requires
        place.col < row_width,
    ensures
        ({
            let selected = match covered(selection, place.cell, place.row, row_width) {
                Some((from, to)) => from <= place.col < to,
                None => false,
            };
            selected <==> ((!reads_before(place, selection.anchor) && reads_before(
                place,
                selection.head,
            )) || (!reads_before(place, selection.head) && reads_before(place, selection.anchor)))
        }),
{
}

/// A selection within one row covers exactly the columns between its ends, and a
/// row touched by a selection is never passed over, however short it is.
pub proof fn selection_within_a_row(
    selection: Selection,
    cell: usize,
    row: usize,
    row_width: usize,
)
    ensures
        selection.anchor.cell == cell && selection.head.cell == cell && selection.anchor.row == row
            && selection.head.row == row && selection.anchor.col <= selection.head.col <= row_width
            ==> covered(selection, cell, row, row_width) == Some(
            (selection.anchor.col, selection.head.col),
        ),
        ({
            let first = SelectPos { cell, row, col: 0 };
            let last = SelectPos { cell, row, col: usize::MAX };
            (reads_before(last, selection.anchor) && reads_before(last, selection.head)) || (
            reads_before(selection.anchor, first) && reads_before(selection.head, first))
        }) <==> covered(selection, cell, row, row_width) is None,
{
}

/// Nothing of a cell is selected where all of its rows lie outside.
proof fn untouched_rows_have_no_part(
    rows: Seq<Seq<char>>,
    cell: usize,
    selection: Selection,
    count: nat,
)
    requires
        count <= rows.len() <= usize::MAX,
        forall|r: int|
            0 <= r < count ==> covered(
                selection,
                cell,
                r as usize,
                cell_width(#[trigger] rows[r]),
            ) is None,
    ensures
        cell_parts(rows, cell, selection, count) == Seq::<Seq<char>>::empty(),
    decreases count,
{
    if count > 0 {
        untouched_rows_have_no_part(rows, cell, selection, (count - 1) as nat);
        assert(covered(
            selection,
            cell,
            (count - 1) as usize,
            cell_width(rows[count - 1]),
        ) is None);
    }
}

proof fn one_row_has_one_part(
    rows: Seq<Seq<char>>,
    cell: usize,
    selection: Selection,
    row: int,
    count: nat,
)
    requires
        count <= rows.len() <= usize::MAX,
        0 <= row < rows.len(),
        selection.anchor.cell == cell,
        selection.head.cell == cell,
        selection.anchor.row == row,
        selection.head.row == row,
        selection.anchor.col <= selection.head.col <= cell_width(rows[row]),
    ensures
        cell_parts(rows, cell, selection, count) == (if count <= row {
            Seq::<Seq<char>>::empty()
        } else {
            seq![
                columns(
                    rows[row],
                    selection.anchor.col as nat,
                    selection.head.col as nat,
                ),
            ]
        }),
    decreases count,
{
    if count > 0 {
        one_row_has_one_part(rows, cell, selection, row, (count - 1) as nat);
        assert(cell_parts(rows, cell, selection, count) =~= (if count <= row {
            Seq::<Seq<char>>::empty()
        } else {
            seq![
                columns(
                    rows[row],
                    selection.anchor.col as nat,
                    selection.head.col as nat,
                ),
            ]
        }));
    }
}

proof fn one_cell_has_the_parts(
    cells: Seq<LineView>,
    width: nat,
    selection: Selection,
    count: nat,
)
    requires
        count <= cells.len() <= usize::MAX,
        selection.anchor.cell == selection.head.cell,
        selection.anchor.cell < cells.len(),
        forall|c: int| 0 <= c < cells.len() ==> wrapped(
            (#[trigger] cells[c]).text,
            width,
        ).len() <= usize::MAX,
    ensures
        ({
            let c = selection.anchor.cell;
            let rows = wrapped(cells[c as int].text, width);
            selected_parts(cells, width, selection, count) == (if count <= c {
                Seq::<Seq<char>>::empty()
            } else {
                cell_parts(rows, c, selection, rows.len())
            })
        }),
    decreases count,
{
    if count > 0 {
        let c = count - 1;
        one_cell_has_the_parts(cells, width, selection, c as nat);
        let rows = wrapped(cells[c].text, width);
        if c != selection.anchor.cell {
            untouched_rows_have_no_part(rows, c as usize, selection, rows.len());
        }
        let mine = wrapped(cells[selection.anchor.cell as int].text, width);
        assert(selected_parts(cells, width, selection, count) =~= (if count
            <= selection.anchor.cell {
            Seq::<Seq<char>>::empty()
        } else {
            cell_parts(mine, selection.anchor.cell, selection, mine.len())
        }));
    }
}

/// Copying within one wrapped row copies the columns from the one end up to the
/// other, and nothing else.
pub proof fn copy_within_a_row(cells: Seq<LineView>, width: nat, selection: Selection)
    requires
        width > 0,
        cells.len() <= usize::MAX,
        forall|c: int| 0 <= c < cells.len() ==> wrapped(
            (#[trigger] cells[c]).text,
            width,
        ).len() <= usize::MAX,
        selection.anchor.cell == selection.head.cell < cells.len(),
        selection.anchor.row == selection.head.row,
        selection.anchor.row < wrapped(cells[selection.anchor.cell as int].text, width).len(),
        selection.anchor.col <= selection.head.col <= cell_width(
            wrapped(
                cells[selection.anchor.cell as int].text,
                width,
            )[selection.anchor.row as int],
        ),
    ensures
        selected_text(cells, width, selection) == columns(
            wrapped(
                cells[selection.anchor.cell as int].text,
                width,
            )[selection.anchor.row as int],
            selection.anchor.col as nat,
            selection.head.col as nat,
        ),
{
    let c = selection.anchor.cell;
    let rows = wrapped(cells[c as int].text, width);
    let r = selection.anchor.row as int;
    one_cell_has_the_parts(cells, width, selection, cells.len());
    one_row_has_one_part(rows, c, selection, r, rows.len());
    let part = columns(rows[r], selection.anchor.col as nat, selection.head.col as nat);
    if selection.anchor == selection.head {
        crate::app::text::whole_slice_is_the_text(
            crate::app::text::measured(rows[r]),
            selection.anchor.col as nat,
        );
    } else {
        reveal_with_fuel(join, 2);
        assert(join(seq![part], "\n"@) =~= part);
    }
}

/// The pointer hits the row that it is on, at its column or at the row's end; past
/// the last row it hits the end of that row.
pub proof fn hits_are_on_a_shown_row(rows: Seq<VisibleView>, col: usize, row: usize)
    ensures
        rows.len() == 0 ==> hit(rows, col, row) is None,
        row < rows.len() ==> hit(rows, col, row) == Some(
            SelectPos {
                cell: rows[row as int].cell_index,
                row: rows[row as int].row_in_cell,
                col: if col <= cell_width(rows[row as int].text) {
                    col
                } else {
                    cell_width(rows[row as int].text)
                },
            },
        ),
        row >= rows.len() > 0 ==> hit(rows, col, row) == Some(
            SelectPos {
                cell: rows.last().cell_index,
                row: rows.last().row_in_cell,
                col: cell_width(rows.last().text),
            },
        ),
{
}

/// A band holds the places from its corner up to its width and height, and an
/// empty one none.
pub proof fn bands_hold_their_places(band: BandLayout, x: u16, y: u16)
    requires
        band.x + band.width <= u16::MAX,
        band.y + band.height <= u16::MAX,
    ensures
        inside(band, x, y) <==> band.x <= x < band.x + band.width && band.y <= y < band.y
            + band.height,
{
}

/// A place within the transcript stays where it is; one past a row's end goes to
/// that end, and one past the last row or cell to the last of them.
pub proof fn clamping_stays_within(pos: SelectPos, cells: Seq<LineView>, width: nat)
    requires
        width > 0,
        0 < cells.len() <= usize::MAX,
    ensures
        ({
            let kept = clamped_pos(pos, cells, width);
            let rows = wrapped(cells[kept.cell as int].text, width);
            &&& kept.cell < cells.len()
            &&& 0 < rows.len() <= usize::MAX ==> kept.row < rows.len() && kept.col <= cell_width(
                rows[kept.row as int],
            )
            &&& pos.cell < cells.len() ==> kept.cell == pos.cell
            &&& pos.cell >= cells.len() ==> kept.cell == cells.len() - 1
            &&& pos.cell < cells.len() && pos.row < rows.len() ==> kept.row == pos.row
            &&& pos.cell < cells.len() && pos.row < rows.len() && pos.col <= cell_width(
                rows[pos.row as int],
            ) ==> kept == pos
        }),
{
}

/// Of a cell between those that the selection begins and ends in, every row is
/// copied from its first column to its last.
pub proof fn cells_in_between_are_copied_whole(
    rows: Seq<Seq<char>>,
    cell: usize,
    selection: Selection,
    count: nat,
)
    requires
        selection.anchor.cell < cell < selection.head.cell || selection.head.cell < cell
            < selection.anchor.cell,
        count <= rows.len() <= usize::MAX,
    ensures
        cell_parts(rows, cell, selection, count) == Seq::new(
            count,
            |r: int| columns(rows[r], 0, cell_width(rows[r]) as nat),
        ),
    decreases count,
{
    if count > 0 {
        cells_in_between_are_copied_whole(rows, cell, selection, (count - 1) as nat);
    }
    assert(cell_parts(rows, cell, selection, count) =~= Seq::new(
        count,
        |r: int| columns(rows[r], 0, cell_width(rows[r]) as nat),
    ));
}

/// Of a cell outside those that the selection begins and ends in, and not between
/// them, nothing is copied.
pub proof fn other_cells_are_not_copied(
    rows: Seq<Seq<char>>,
    cell: usize,
    selection: Selection,
    count: nat,
)
    requires
        (cell < selection.anchor.cell && cell < selection.head.cell) || (cell
            > selection.anchor.cell && cell > selection.head.cell),
        count <= rows.len() <= usize::MAX,
    ensures
        cell_parts(rows, cell, selection, count).len() == 0,
    decreases count,
{
    if count > 0 {
        other_cells_are_not_copied(rows, cell, selection, (count - 1) as nat);
    }
}

} // verus!
