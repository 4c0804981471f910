//! Scrolling over wrapped rows: positions, windows and the follow policy.

use vstd::prelude::*;

use super::prose::style::{cap, ProjectedRow};

verus! {

// ---------------------------------------------------------------------------
// Rows and positions
// ---------------------------------------------------------------------------

/// How many rows each cell has.
pub open spec fn heights(wrapped: Seq<Vec<ProjectedRow>>) -> Seq<nat> {
    wrapped.map_values(|rows: Vec<ProjectedRow>| rows@.len())
}

/// All rows together.
pub open spec fn total(heights: Seq<nat>) -> nat
    decreases heights.len(),
{
    if heights.len() == 0 {
        0
    } else {
        total(heights.drop_last()) + heights.last()
    }
}

/// The rows that stand before a position.
pub open spec fn rows_before(heights: Seq<nat>, pos: (usize, usize)) -> nat {
    total(heights.take(pos.0 as int)) + pos.1 as nat
}

/// The rows from a position to the end, itself among them.
pub open spec fn rows_after(heights: Seq<nat>, cell: int, row: int) -> nat {
    if cell >= heights.len() {
        0
    } else if row >= heights[cell] {
        total(heights.skip(cell + 1))
    } else {
        (heights[cell] - row) as nat + total(heights.skip(cell + 1))
    }
}

/// Whether a position names a row that is there.
pub open spec fn is_row(heights: Seq<nat>, pos: (usize, usize)) -> bool {
    pos.0 < heights.len() && pos.1 < heights[pos.0 as int]
}

proof fn total_add(a: Seq<nat>, b: Seq<nat>)
    ensures
        total(a + b) == total(a) + total(b),
    decreases b.len(),
{
    if b.len() == 0 {
        assert(a + b =~= a);
    } else {
        assert((a + b).drop_last() =~= a + b.drop_last());
        total_add(a, b.drop_last());
    }
}

/// The rows before and after a row that is there make up all rows.
pub proof fn rows_split(heights: Seq<nat>, pos: (usize, usize))
    requires
        is_row(heights, pos),
    ensures
        rows_before(heights, pos) + rows_after(heights, pos.0 as int, pos.1 as int) == total(
            heights,
        ),
        rows_before(heights, pos) < total(heights),
{
    let c = pos.0 as int;
    let head = heights.take(c);
    let one = heights.take(c + 1);
    let rest = heights.skip(c + 1);
    assert(one.drop_last() =~= head);
    assert(heights =~= one + rest);
    total_add(one, rest);
}

pub fn row_count(wrapped: &Vec<Vec<ProjectedRow>>) -> (count: usize)
    ensures
        count == cap(total(heights(wrapped@))),
{
    let ghost h = heights(wrapped@);
    let mut count: usize = 0;
    let mut i: usize = 0;
    while i < wrapped.len()
        invariant
            i <= wrapped.len(),
            h == heights(wrapped@),
            count == cap(total(h.take(i as int))),
        decreases wrapped.len() - i,
    {
        proof {
            assert(h.take(i as int + 1).drop_last() =~= h.take(i as int));
        }
        count = count.saturating_add(wrapped[i].len());
        i += 1;
    }
    proof {
        assert(h.take(i as int) =~= h);
    }
    count
}

/// The first row of a window of `height` rows that ends at the tail.
pub open spec fn tail_start(heights: Seq<nat>, height: nat) -> (int, int)
    decreases heights.len(),
{
    if heights.len() == 0 {
        (0, 0)
    } else if heights.last() >= height {
        (heights.len() - 1, heights.last() - height)
    } else {
        tail_start(heights.drop_last(), (height - heights.last()) as nat)
    }
}

pub fn start_from_tail(wrapped: &Vec<Vec<ProjectedRow>>, height: usize) -> (pos: (usize, usize))
    ensures
        (pos.0 as int, pos.1 as int) == tail_start(heights(wrapped@), height as nat),
        wrapped.len() > 0 ==> pos.0 < wrapped.len(),
{
    let ghost h = heights(wrapped@);
    let mut left: usize = height;
    let mut i: usize = wrapped.len();
    proof {
        assert(h.take(i as int) =~= h);
    }
    while i > 0
        invariant
            i <= wrapped.len(),
            h == heights(wrapped@),
            tail_start(h, height as nat) == tail_start(h.take(i as int), left as nat),
        decreases i,
    {
        proof {
            assert(h.take(i as int).drop_last() =~= h.take(i - 1));
            assert(h.take(i as int).last() == wrapped@[i - 1]@.len());
        }
        let len = wrapped[i - 1].len();
        if len >= left {
            return (i - 1, len - left);
        }
        left -= len;
        i -= 1;
    }
    (0, 0)
}

/// A pin moved onto the rows that are there.
pub open spec fn clamped(heights: Seq<nat>, pin: Option<(usize, usize)>) -> (usize, usize) {
    match pin {
        Some((cell, row)) => if heights.len() == 0 {
            (0, 0)
        } else {
            let at = if cell < heights.len() {
                cell
            } else {
                (heights.len() - 1) as usize
            };
            let len = heights[at as int];
            (
                at,
                if len == 0 {
                    0
                } else if row < len {
                    row
                } else {
                    (len - 1) as usize
                },
            )
        },
        None => (0, 0),
    }
}

pub fn clamp_pin(pin: Option<(usize, usize)>, wrapped: &Vec<Vec<ProjectedRow>>) -> (pos: (
    usize,
    usize,
))
    ensures
        pos == clamped(heights(wrapped@), pin),
        wrapped.len() > 0 ==> pos.0 < wrapped.len(),
{
    match pin {
        Some((cell, row)) => {
            if wrapped.len() == 0 {
                return (0, 0);
            }
            let at = if cell < wrapped.len() {
                cell
            } else {
                wrapped.len() - 1
            };
            let len = wrapped[at].len();
            assert(heights(wrapped@)[at as int] == len);
            if len == 0 {
                (at, 0)
            } else if row < len {
                (at, row)
            } else {
                (at, len - 1)
            }
        },
        None => (0, 0),
    }
}

pub fn rows_from(wrapped: &Vec<Vec<ProjectedRow>>, cell: usize, row: usize) -> (count: usize)
    ensures
        count == cap(rows_after(heights(wrapped@), cell as int, row as int)),
{
    let ghost h = heights(wrapped@);
    if cell >= wrapped.len() {
        return 0;
    }
    let mut count: usize = wrapped[cell].len().saturating_sub(row);
    let ghost first = count as nat;
    let ghost rest = h.skip(cell + 1);
    let mut i: usize = cell + 1;
    proof {
        assert(h[cell as int] == wrapped@[cell as int]@.len());
        assert(rest.take(0) =~= Seq::<nat>::empty());
    }
    while i < wrapped.len()
        invariant
            cell < i <= wrapped.len(),
            h == heights(wrapped@),
            rest == h.skip(cell + 1),
            count == cap(first + total(rest.take(i - cell - 1))),
        decreases wrapped.len() - i,
    {
        proof {
            let k = i - cell - 1;
            assert(rest.take(k + 1).drop_last() =~= rest.take(k));
            assert(rest[k] == wrapped@[i as int]@.len());
        }
        count = count.saturating_add(wrapped[i].len());
        i += 1;
    }
    proof {
        assert(rest.take(i - cell - 1) =~= rest);
    }
    count
}

/// The absolute index of a position: all rows but those from it on.
pub open spec fn index_of(heights: Seq<nat>, pos: (usize, usize)) -> nat {
    let all = cap(total(heights));
    let rest = cap(rows_after(heights, pos.0 as int, pos.1 as int));
    if all > rest {
        (all - rest) as nat
    } else {
        0
    }
}

/// Absolute wrapped-row index of a logical position: rows before the cursor, 0
/// at the transcript head.
pub fn logical_index(wrapped: &Vec<Vec<ProjectedRow>>, pos: (usize, usize)) -> (index: usize)
    ensures
        index == index_of(heights(wrapped@), pos),
{
    row_count(wrapped).saturating_sub(rows_from(wrapped, pos.0, pos.1))
}

/// The nearest cell before a cell that has rows, or -1.
pub open spec fn cell_above(heights: Seq<nat>, cell: int) -> int
    decreases cell,
{
    if cell <= 0 {
        -1
    } else if cell - 1 < heights.len() && heights[cell - 1] > 0 {
        cell - 1
    } else {
        cell_above(heights, cell - 1)
    }
}

/// The nearest cell behind a cell that has rows, or the number of cells.
pub open spec fn cell_below(heights: Seq<nat>, cell: int) -> int
    decreases heights.len() - cell,
{
    if cell + 1 < 0 || cell + 1 >= heights.len() {
        heights.len() as int
    } else if heights[cell + 1] > 0 {
        cell + 1
    } else {
        cell_below(heights, cell + 1)
    }
}

fn find_above(wrapped: &Vec<Vec<ProjectedRow>>, cell: usize) -> (found: Option<usize>)
    requires
        cell <= wrapped.len(),
    ensures
        cell_above(heights(wrapped@), cell as int) == (match found {
            Some(at) => at as int,
            None => -1,
        }),
        match found {
            Some(at) => at < cell && wrapped@[at as int]@.len() > 0,
            None => true,
        },
{
    let ghost h = heights(wrapped@);
    let mut at: usize = cell;
    while at > 0
        invariant
            at <= cell <= wrapped.len(),
            h == heights(wrapped@),
            cell_above(h, cell as int) == cell_above(h, at as int),
        decreases at,
    {
        assert(h[at - 1] == wrapped@[at - 1]@.len());
        if wrapped[at - 1].len() > 0 {
            return Some(at - 1);
        }
        at -= 1;
    }
    None
}

fn find_below(wrapped: &Vec<Vec<ProjectedRow>>, cell: usize) -> (found: Option<usize>)
    ensures
        cell_below(heights(wrapped@), cell as int) == (match found {
            Some(at) => at as int,
            None => wrapped@.len() as int,
        }),
        match found {
            Some(at) => cell < at < wrapped.len(),
            None => true,
        },
{
    let ghost h = heights(wrapped@);
    if cell >= wrapped.len() {
        return None;
    }
    let mut at: usize = cell + 1;
    while at < wrapped.len()
        invariant
            cell < at <= wrapped.len(),
            h == heights(wrapped@),
            cell_below(h, cell as int) == cell_below(h, at - 1),
        decreases wrapped.len() - at,
    {
        assert(h[at as int] == wrapped@[at as int]@.len());
        if wrapped[at].len() > 0 {
            return Some(at);
        }
        at += 1;
    }
    None
}

/// A cursor moved onto the rows that are there. From a cell without rows it goes
/// to the nearest row above, and to the first below where there is none.
pub open spec fn clamped_cursor(heights: Seq<nat>, pos: (usize, usize)) -> (usize, usize) {
    let at = clamped(heights, Some(pos));
    let above = cell_above(heights, at.0 as int);
    let below = cell_below(heights, at.0 as int);
    if heights.len() == 0 || heights[at.0 as int] > 0 {
        at
    } else if above >= 0 {
        (above as usize, (heights[above] - 1) as usize)
    } else if below < heights.len() {
        (below as usize, 0)
    } else {
        at
    }
}

/// Clamps a logical cursor position onto the wrapped rows.
pub fn clamp_cursor(wrapped: &Vec<Vec<ProjectedRow>>, pos: (usize, usize)) -> (result: (
    usize,
    usize,
))
    ensures
        result == clamped_cursor(heights(wrapped@), pos),
        wrapped.len() > 0 ==> result.0 < wrapped.len(),
{
    let ghost h = heights(wrapped@);
    let at = clamp_pin(Some(pos), wrapped);
    if wrapped.len() == 0 {
        return at;
    }
    assert(h[at.0 as int] == wrapped@[at.0 as int]@.len());
    if wrapped[at.0].len() > 0 {
        return at;
    }
    match find_above(wrapped, at.0) {
        Some(above) => {
            assert(h[above as int] == wrapped@[above as int]@.len());
            (above, wrapped[above].len() - 1)
        },
        None => match find_below(wrapped, at.0) {
            Some(below) => (below, 0),
            None => at,
        },
    }
}

/// The last row; where there is none, the head of the last cell.
pub open spec fn last_row(heights: Seq<nat>) -> (int, int) {
    let last = cell_above(heights, heights.len() as int);
    if heights.len() == 0 {
        (0, 0)
    } else if last < 0 {
        (heights.len() - 1, 0)
    } else {
        (last, heights[last] - 1)
    }
}

/// The position at an absolute index, counted from cell `cell` on; past the end
/// the last row.
pub open spec fn position_from(heights: Seq<nat>, cell: int, index: int) -> (int, int)
    decreases heights.len() - cell,
{
    if cell >= heights.len() {
        last_row(heights)
    } else if index < heights[cell] {
        (cell, index)
    } else {
        position_from(heights, cell + 1, index - heights[cell])
    }
}

/// The logical position whose wrapped row sits at absolute `index`.
/// Past-the-end indices clamp onto the last row.
pub fn position_at_index(wrapped: &Vec<Vec<ProjectedRow>>, index: usize) -> (pos: (usize, usize))
    ensures
        (pos.0 as int, pos.1 as int) == position_from(heights(wrapped@), 0, index as int),
{
    let ghost h = heights(wrapped@);
    if wrapped.len() == 0 {
        return (0, 0);
    }
    let mut left: usize = index;
    let mut cell: usize = 0;
    while cell < wrapped.len()
        invariant
            cell <= wrapped.len(),
            h == heights(wrapped@),
            position_from(h, 0, index as int) == position_from(h, cell as int, left as int),
        decreases wrapped.len() - cell,
    {
        assert(h[cell as int] == wrapped@[cell as int]@.len());
        if left < wrapped[cell].len() {
            return (cell, left);
        }
        left -= wrapped[cell].len();
        cell += 1;
    }
    find_last_row(wrapped)
}

/// The position of the last row.
pub fn find_last_row(wrapped: &Vec<Vec<ProjectedRow>>) -> (pos: (usize, usize))
    ensures
        (pos.0 as int, pos.1 as int) == last_row(heights(wrapped@)),
{
    let ghost h = heights(wrapped@);
    if wrapped.len() == 0 {
        return (0, 0);
    }
    match find_above(wrapped, wrapped.len()) {
        Some(last) => {
            assert(h[last as int] == wrapped@[last as int]@.len());
            (last, wrapped[last].len() - 1)
        },
        None => (wrapped.len() - 1, 0),
    }
}

/// Where a position lies `n` rows further back. Cells without rows are passed
/// over, and the first row is where it ends.
pub open spec fn back(heights: Seq<nat>, cell: int, row: int, n: nat) -> (int, int)
    decreases n,
{
    let above = cell_above(heights, cell);
    if row >= n {
        (cell, row - n)
    } else if above < 0 || row < 0 {
        (cell, 0)
    } else {
        back(heights, above, heights[above] - 1, (n - row - 1) as nat)
    }
}

pub fn move_backward(
    wrapped: &Vec<Vec<ProjectedRow>>,
    cell: &mut usize,
    row: &mut usize,
    count: usize,
)
    requires
        *old(cell) <= wrapped.len(),
    ensures
        (*final(cell) as int, *final(row) as int) == back(
            heights(wrapped@),
            *old(cell) as int,
            *old(row) as int,
            count as nat,
        ),
        *final(cell) <= *old(cell),
{
    let ghost h = heights(wrapped@);
    let mut n: usize = count;
    while n > 0
        invariant
            h == heights(wrapped@),
            *cell <= *old(cell) <= wrapped.len(),
            back(h, *cell as int, *row as int, n as nat) == back(
                h,
                *old(cell) as int,
                *old(row) as int,
                count as nat,
            ),
        decreases n,
    {
        if *row >= n {
            *row -= n;
            n = 0;
        } else {
            match find_above(wrapped, *cell) {
                Some(above) => {
                    assert(h[above as int] == wrapped@[above as int]@.len());
                    n = n - *row - 1;
                    *cell = above;
                    *row = wrapped[above].len() - 1;
                },
                None => {
                    *row = 0;
                    n = 0;
                },
            }
        }
    }
}

/// Where a position lies `n` rows further on. Cells without rows are passed
/// over, and the last row is where it ends.
pub open spec fn ahead(heights: Seq<nat>, cell: int, row: int, n: nat) -> (int, int)
    decreases n,
{
    let len = if 0 <= cell < heights.len() {
        heights[cell] as int
    } else {
        0
    };
    let below = cell_below(heights, cell);
    if n == 0 || row + n < len {
        (cell, row + n)
    } else if below >= heights.len() {
        (
            cell,
            if row < len {
                len - 1
            } else {
                row
            },
        )
    } else {
        ahead(
            heights,
            below,
            0,
            (n - (if row < len {
                len - row
            } else {
                1
            })) as nat,
        )
    }
}

pub fn move_forward(
    wrapped: &Vec<Vec<ProjectedRow>>,
    cell: &mut usize,
    row: &mut usize,
    count: usize,
)
    ensures
        (*final(cell) as int, *final(row) as int) == ahead(
            heights(wrapped@),
            *old(cell) as int,
            *old(row) as int,
            count as nat,
        ),
        *old(cell) < wrapped.len() ==> *final(cell) < wrapped.len(),
{
    let ghost h = heights(wrapped@);
    let mut n: usize = count;
    while n > 0
        invariant
            h == heights(wrapped@),
            *old(cell) < wrapped.len() ==> *cell < wrapped.len(),
            ahead(h, *cell as int, *row as int, n as nat) == ahead(
                h,
                *old(cell) as int,
                *old(row) as int,
                count as nat,
            ),
        decreases n,
    {
        let mut len: usize = 0;
        if *cell < wrapped.len() {
            assert(h[*cell as int] == wrapped@[*cell as int]@.len());
            len = wrapped[*cell].len();
        }
        let room: usize = len.saturating_sub(*row);
        if n < room {
            *row += n;
            n = 0;
        } else {
            match find_below(wrapped, *cell) {
                Some(below) => {
                    *cell = below;
                    *row = 0;
                    n -= if room > 0 {
                        room
                    } else {
                        1
                    };
                },
                None => {
                    if room > 0 {
                        *row = len - 1;
                    }
                    n = 0;
                },
            }
        }
    }
}

/// The number of rows a signed distance spans.
pub open spec fn distance(delta: isize) -> nat {
    if delta < 0 {
        (-(delta as int)) as nat
    } else {
        delta as nat
    }
}

fn magnitude(delta: isize) -> (n: usize)
    ensures
        n == distance(delta),
{
    if delta < 0 {
        (-(delta + 1)) as usize + 1
    } else {
        delta as usize
    }
}

/// A cursor moved by `delta` rows from where it is clamped to.
pub open spec fn moved(heights: Seq<nat>, pos: (usize, usize), delta: isize) -> (int, int) {
    let at = clamped_cursor(heights, pos);
    if heights.len() == 0 {
        (0, 0)
    } else if delta < 0 {
        back(heights, at.0 as int, at.1 as int, distance(delta))
    } else {
        ahead(heights, at.0 as int, at.1 as int, distance(delta))
    }
}

/// Moves a logical cursor by `delta` wrapped rows, clamping at both ends of the
/// transcript.
pub fn move_cursor(wrapped: &Vec<Vec<ProjectedRow>>, pos: (usize, usize), delta: isize) -> (result:
    (usize, usize))
    ensures
        (result.0 as int, result.1 as int) == moved(heights(wrapped@), pos, delta),
        wrapped.len() > 0 ==> result.0 < wrapped.len(),
{
    if wrapped.len() == 0 {
        return (0, 0);
    }
    let at = clamp_cursor(wrapped, pos);
    let mut cell: usize = at.0;
    let mut row: usize = at.1;
    if delta < 0 {
        move_backward(wrapped, &mut cell, &mut row, magnitude(delta));
    } else {
        move_forward(wrapped, &mut cell, &mut row, magnitude(delta));
    }
    (cell, row)
}

/// Whether a window of `height` rows from a position on reaches the tail.
pub open spec fn reaches_tail(heights: Seq<nat>, cell: int, row: int, height: nat) -> bool {
    heights.len() == 0 || cap(rows_after(heights, cell, row)) <= height
}

pub fn window_reaches_tail(
    wrapped: &Vec<Vec<ProjectedRow>>,
    cell: usize,
    row: usize,
    height: usize,
) -> (yes: bool)
    ensures
        yes == reaches_tail(heights(wrapped@), cell as int, row as int, height as nat),
{
    wrapped.len() == 0 || rows_from(wrapped, cell, row) <= height
}

// ---------------------------------------------------------------------------
// The scroll policy
// ---------------------------------------------------------------------------

/// Follow-bottom is the only scroll policy. `pin` is the first visible
/// `(cell, row)` while the user has scrolled up.
#[derive(Clone, Copy, Debug, PartialEq, Eq)]
pub struct ScrollState {
    pub follow_bottom: bool,
    pub pin: Option<(usize, usize)>,
}

pub open spec fn following() -> ScrollState {
    ScrollState { follow_bottom: true, pin: None }
}

pub open spec fn pinned(pos: (usize, usize)) -> ScrollState {
    ScrollState { follow_bottom: false, pin: Some(pos) }
}

/// Whether everything fits into the window, so that there is nothing to scroll.
pub open spec fn fits_window(heights: Seq<nat>, height: nat) -> bool {
    cap(total(heights)) <= height
}

/// The first visible position of a scroll state.
pub open spec fn window_start(scroll: ScrollState, heights: Seq<nat>, height: nat) -> (int, int) {
    if scroll.follow_bottom {
        tail_start(heights, height)
    } else {
        let at = clamped(heights, scroll.pin);
        (at.0 as int, at.1 as int)
    }
}

/// The state after scrolling by `delta` rows: backward pins the view, forward
/// follows again once the window reaches the tail, and a transcript that fits is
/// always followed.
pub open spec fn scrolled(
    scroll: ScrollState,
    heights: Seq<nat>,
    height: nat,
    delta: isize,
) -> ScrollState {
    if delta == 0 || height == 0 || heights.len() == 0 {
        scroll
    } else if fits_window(heights, height) {
        following()
    } else {
        let from = window_start(scroll, heights, height);
        if delta < 0 {
            let to = back(heights, from.0, from.1, distance(delta));
            pinned((to.0 as usize, to.1 as usize))
        } else {
            let to = ahead(heights, from.0, from.1, distance(delta));
            if reaches_tail(heights, to.0, to.1, height) {
                following()
            } else {
                pinned((to.0 as usize, to.1 as usize))
            }
        }
    }
}

/// The wrapped-row offset of the window's top.
pub open spec fn window_offset(scroll: ScrollState, heights: Seq<nat>, height: nat) -> nat {
    let all = cap(total(heights));
    let room = if all > height {
        (all - height) as nat
    } else {
        0
    };
    if scroll.follow_bottom || room == 0 {
        room
    } else {
        let top = index_of(heights, clamped(heights, scroll.pin));
        if top < room {
            top
        } else {
            room
        }
    }
}

impl ScrollState {
    pub fn follow() -> (scroll: ScrollState)
        ensures
            scroll == following(),
    {
        ScrollState { follow_bottom: true, pin: None }
    }

    pub fn follow_bottom(&self) -> (yes: bool)
        ensures
            yes == self.follow_bottom,
    {
        self.follow_bottom
    }

    /// The pinned viewport origin, if the user has scrolled off the tail.
    pub fn pin(&self) -> (pin: Option<(usize, usize)>)
        ensures
            pin == self.pin,
    {
        self.pin
    }

    /// The first visible position.
    pub fn start(&self, wrapped: &Vec<Vec<ProjectedRow>>, height: usize) -> (pos: (usize, usize))
        ensures
            (pos.0 as int, pos.1 as int) == window_start(*self, heights(wrapped@), height as nat),
            wrapped.len() > 0 ==> pos.0 < wrapped.len(),
    {
        if self.follow_bottom {
            start_from_tail(wrapped, height)
        } else {
            clamp_pin(self.pin, wrapped)
        }
    }

    /// Pins the viewport so `target` becomes its top row. Short transcripts
    /// collapse back to follow.
    pub fn pin_at(
        &mut self,
        wrapped: &Vec<Vec<ProjectedRow>>,
        height: usize,
        target: (usize, usize),
    )
        ensures
            *final(self) == (if height == 0 || wrapped.len() == 0 || fits_window(
                heights(wrapped@),
                height as nat,
            ) {
                following()
            } else {
                pinned(clamped(heights(wrapped@), Some(target)))
            }),
    {
        if height == 0 || wrapped.len() == 0 || row_count(wrapped) <= height {
            *self = ScrollState::follow();
            return ;
        }
        *self = ScrollState { follow_bottom: false, pin: Some(clamp_pin(Some(target), wrapped)) };
    }

    /// `delta < 0` moves toward older rows. `height` is the transcript region,
    /// not the full terminal.
    pub fn scroll_wrapped(&mut self, wrapped: &Vec<Vec<ProjectedRow>>, height: usize, delta: isize)
        ensures
            *final(self) == scrolled(*old(self), heights(wrapped@), height as nat, delta),
    {
        if delta == 0 || height == 0 || wrapped.len() == 0 {
            return ;
        }
        if row_count(wrapped) <= height {
            *self = ScrollState::follow();
            return ;
        }
        let from = self.start(wrapped, height);
        let mut cell: usize = from.0;
        let mut row: usize = from.1;
        if delta < 0 {
            move_backward(wrapped, &mut cell, &mut row, magnitude(delta));
            *self = ScrollState { follow_bottom: false, pin: Some((cell, row)) };
            return ;
        }
        move_forward(wrapped, &mut cell, &mut row, magnitude(delta));
        if window_reaches_tail(wrapped, cell, row, height) {
            *self = ScrollState::follow();
        } else {
            *self = ScrollState { follow_bottom: false, pin: Some((cell, row)) };
        }
    }

    /// Stop following without moving the current visible window.
    pub fn unfollow_keep_wrapped(&mut self, wrapped: &Vec<Vec<ProjectedRow>>, height: usize)
        ensures
            *final(self) == (if !old(self).follow_bottom {
                *old(self)
            } else if height == 0 || wrapped.len() == 0 {
                pinned((0, 0))
            } else {
                let at = tail_start(heights(wrapped@), height as nat);
                pinned((at.0 as usize, at.1 as usize))
            }),
    {
        if !self.follow_bottom {
            return ;
        }
        let at = if height == 0 || wrapped.len() == 0 {
            (0, 0)
        } else {
            start_from_tail(wrapped, height)
        };
        *self = ScrollState { follow_bottom: false, pin: Some(at) };
    }

    pub fn jump_top(&mut self, wrapped: &Vec<Vec<ProjectedRow>>, height: usize)
        ensures
            *final(self) == (if height == 0 || wrapped.len() == 0 || fits_window(
                heights(wrapped@),
                height as nat,
            ) {
                following()
            } else {
                pinned((0, 0))
            }),
    {
        if height == 0 || wrapped.len() == 0 || row_count(wrapped) <= height {
            *self = ScrollState::follow();
            return ;
        }
        *self = ScrollState { follow_bottom: false, pin: Some((0, 0)) };
    }

    pub fn jump_bottom(&mut self)
        ensures
            *final(self) == following(),
    {
        *self = ScrollState::follow();
    }

    /// Wrapped-row offset of the visible window's top, 0 at the transcript head:
    /// that of the tail window while following, otherwise the rows above the
    /// pinned start, up to the tail window.
    pub fn scroll_offset(&self, wrapped: &Vec<Vec<ProjectedRow>>, height: usize) -> (offset: usize)
        ensures
            offset == window_offset(*self, heights(wrapped@), height as nat),
    {
        let all = row_count(wrapped);
        let room = all.saturating_sub(height);
        if self.follow_bottom || room == 0 {
            return room;
        }
        let at = clamp_pin(self.pin, wrapped);
        let top = all.saturating_sub(rows_from(wrapped, at.0, at.1));
        if top < room {
            top
        } else {
            room
        }
    }
}

impl Default for ScrollState {
    fn default() -> (scroll: ScrollState)
        ensures
            scroll == following(),
    {
        ScrollState::follow()
    }
}

// ---------------------------------------------------------------------------
// Laws
// ---------------------------------------------------------------------------

/// The index of a row is the number of rows before it.
pub proof fn index_counts_rows_before(heights: Seq<nat>, pos: (usize, usize))
    requires
        is_row(heights, pos),
        total(heights) <= usize::MAX,
    ensures
        index_of(heights, pos) == rows_before(heights, pos),
{
    rows_split(heights, pos);
}

proof fn position_from_finds(heights: Seq<nat>, cell: int, index: int)
    requires
        0 <= cell <= heights.len(),
        0 <= index < total(heights.skip(cell)),
        total(heights) <= usize::MAX,
        heights.len() <= usize::MAX,
    ensures
        ({
            let pos = position_from(heights, cell, index);
            &&& cell <= pos.0 < heights.len()
            &&& 0 <= pos.1 < heights[pos.0]
            &&& total(heights.take(pos.0)) + pos.1 == total(heights.take(cell)) + index
        }),
    decreases heights.len() - cell,
{
    let rest = heights.skip(cell);
    if cell == heights.len() {
        assert(rest =~= Seq::<nat>::empty());
    } else {
        let one = seq![heights[cell]];
        assert(rest =~= one + heights.skip(cell + 1));
        total_add(one, heights.skip(cell + 1));
        assert(one.drop_last() =~= Seq::<nat>::empty());
        reveal_with_fuel(total, 2);
        assert(heights.take(cell + 1).drop_last() =~= heights.take(cell));
        if index >= heights[cell] {
            position_from_finds(heights, cell + 1, index - heights[cell]);
        }
    }
}

/// Looking up an absolute index and counting back are inverse: the position at
/// `index` has exactly `index` rows before it.
pub proof fn position_has_its_index(heights: Seq<nat>, index: usize)
    requires
        index < total(heights),
        total(heights) <= usize::MAX,
        heights.len() <= usize::MAX,
    ensures
        ({
            let pos = position_from(heights, 0, index as int);
            let at = (pos.0 as usize, pos.1 as usize);
            is_row(heights, at) && index_of(heights, at) == index
        }),
{
    assert(heights.skip(0) =~= heights);
    assert(heights.take(0) =~= Seq::<nat>::empty());
    position_from_finds(heights, 0, index as int);
    let pos = position_from(heights, 0, index as int);
    height_bound(heights, pos.0);
    let at = (pos.0 as usize, pos.1 as usize);
    index_counts_rows_before(heights, at);
}

proof fn height_bound(heights: Seq<nat>, cell: int)
    requires
        0 <= cell < heights.len(),
    ensures
        heights[cell] <= total(heights),
        total(heights.take(cell)) <= total(heights),
{
    let one = heights.take(cell + 1);
    assert(one.drop_last() =~= heights.take(cell));
    assert(heights =~= one + heights.skip(cell + 1));
    total_add(one, heights.skip(cell + 1));
}

proof fn none_between_above(heights: Seq<nat>, cell: int)
    requires
        0 <= cell <= heights.len(),
    ensures
        ({
            let above = cell_above(heights, cell);
            &&& -1 <= above < cell
            &&& above >= 0 ==> heights[above] > 0
            &&& total(heights.take(cell)) == total(heights.take(above + 1))
        }),
    decreases cell,
{
    if cell > 0 {
        assert(heights.take(cell).drop_last() =~= heights.take(cell - 1));
        assert(heights.take(cell).last() == heights[cell - 1]);
        if heights[cell - 1] == 0 {
            none_between_above(heights, cell - 1);
        }
    }
}

proof fn none_between_below(heights: Seq<nat>, cell: int)
    requires
        0 <= cell < heights.len(),
    ensures
        ({
            let below = cell_below(heights, cell);
            &&& cell < below <= heights.len()
            &&& below < heights.len() ==> heights[below] > 0
            &&& total(heights.take(cell + 1)) == total(heights.take(below))
        }),
    decreases heights.len() - cell,
{
    if cell + 1 < heights.len() && heights[cell + 1] == 0 {
        none_between_below(heights, cell + 1);
        assert(heights.take(cell + 2).drop_last() =~= heights.take(cell + 1));
        assert(heights.take(cell + 2).last() == heights[cell + 1]);
    }
}

/// Stepping back moves by exactly that many rows, and stops at the head.
pub proof fn back_counts_rows(heights: Seq<nat>, cell: int, row: int, n: nat)
    requires
        0 <= cell < heights.len(),
        0 <= row < heights[cell],
    ensures
        ({
            let pos = back(heights, cell, row, n);
            let from = total(heights.take(cell)) + row;
            &&& 0 <= pos.0 < heights.len()
            &&& 0 <= pos.1 < heights[pos.0]
            &&& total(heights.take(pos.0)) + pos.1 == (if from >= n {
                from - n
            } else {
                0
            })
        }),
    decreases n,
{
    assert(heights.take(0) =~= Seq::<nat>::empty());
    none_between_above(heights, cell);
    let above = cell_above(heights, cell);
    if row < n && above >= 0 {
        assert(heights.take(above + 1).drop_last() =~= heights.take(above));
        assert(heights.take(above + 1).last() == heights[above]);
        back_counts_rows(heights, above, heights[above] - 1, (n - row - 1) as nat);
    }
}

/// Stepping ahead moves by exactly that many rows, and stops at the tail.
pub proof fn ahead_counts_rows(heights: Seq<nat>, cell: int, row: int, n: nat)
    requires
        0 <= cell < heights.len(),
        0 <= row < heights[cell],
    ensures
        ({
            let pos = ahead(heights, cell, row, n);
            let from = total(heights.take(cell)) + row;
            &&& 0 <= pos.0 < heights.len()
            &&& 0 <= pos.1 < heights[pos.0]
            &&& total(heights.take(pos.0)) + pos.1 == (if from + n < total(heights) {
                from + n
            } else {
                total(heights) - 1
            })
        }),
    decreases n,
{
    height_bound(heights, cell);
    none_between_below(heights, cell);
    assert(heights.take(cell + 1).drop_last() =~= heights.take(cell));
    assert(heights.take(cell + 1).last() == heights[cell]);
    assert(heights =~= heights.take(cell + 1) + heights.skip(cell + 1));
    total_add(heights.take(cell + 1), heights.skip(cell + 1));
    let len = heights[cell] as int;
    let below = cell_below(heights, cell);
    if n > 0 && row + n >= len {
        if below < heights.len() {
            ahead_counts_rows(heights, below, 0, (n - (len - row)) as nat);
        } else {
            assert(heights.take(below) =~= heights);
        }
    }
}

proof fn position_from_passes(heights: Seq<nat>, cell: int, index: int)
    requires
        0 <= cell <= heights.len(),
        total(heights.skip(cell)) <= index,
    ensures
        position_from(heights, cell, index) == last_row(heights),
    decreases heights.len() - cell,
{
    if cell < heights.len() {
        let one = seq![heights[cell]];
        assert(heights.skip(cell) =~= one + heights.skip(cell + 1));
        total_add(one, heights.skip(cell + 1));
        assert(one.drop_last() =~= Seq::<nat>::empty());
        reveal_with_fuel(total, 2);
        position_from_passes(heights, cell + 1, index - heights[cell]);
    }
}

/// Past-the-end indices name the last row, where there is a row at all.
pub proof fn past_the_end_is_the_last_row(heights: Seq<nat>, index: nat)
    requires
        0 < total(heights) <= index,
    ensures
        ({
            let pos = position_from(heights, 0, index as int);
            &&& 0 <= pos.0 < heights.len()
            &&& 0 <= pos.1 < heights[pos.0]
            &&& total(heights.take(pos.0)) + pos.1 == total(heights) - 1
        }),
{
    let len = heights.len() as int;
    assert(heights.skip(0) =~= heights);
    assert(heights.take(len) =~= heights);
    assert(heights.take(0) =~= Seq::<nat>::empty());
    position_from_passes(heights, 0, index as int);
    none_between_above(heights, len);
    let last = cell_above(heights, len);
    assert(heights.take(last + 1).drop_last() =~= heights.take(last));
}

/// Wherever there are rows, a clamped cursor stands on one, and one that stands
/// on a row stays.
pub proof fn clamping_lands_on_a_row(heights: Seq<nat>, pos: (usize, usize))
    requires
        0 < total(heights) <= usize::MAX,
        heights.len() <= usize::MAX,
    ensures
        is_row(heights, clamped_cursor(heights, pos)),
        is_row(heights, pos) ==> clamped_cursor(heights, pos) == pos,
{
    let len = heights.len() as int;
    let at = clamped(heights, Some(pos));
    let cell = at.0 as int;
    if heights[cell] == 0 {
        none_between_above(heights, cell);
        none_between_below(heights, cell);
        let above = cell_above(heights, cell);
        let below = cell_below(heights, cell);
        assert(heights.take(cell + 1).drop_last() =~= heights.take(cell));
        assert(heights.take(cell + 1).last() == heights[cell]);
        assert(heights.take(0) =~= Seq::<nat>::empty());
        assert(heights.take(len) =~= heights);
        if above >= 0 {
            height_bound(heights, above);
        }
    } else {
        height_bound(heights, cell);
    }
}

/// A cursor moves by exactly `delta` rows from the row it is clamped to and stops
/// at both ends of the transcript: it lands on a row whose index is the old one
/// plus `delta`, clamped.
pub proof fn cursor_moves_by_rows(heights: Seq<nat>, pos: (usize, usize), delta: isize)
    requires
        0 < total(heights) <= usize::MAX,
        heights.len() <= usize::MAX,
    ensures
        ({
            let to = moved(heights, pos, delta);
            let at = (to.0 as usize, to.1 as usize);
            let aim = index_of(heights, clamped_cursor(heights, pos)) + delta;
            &&& at.0 == to.0 && at.1 == to.1
            &&& is_row(heights, at)
            &&& index_of(heights, at) == (if aim < 0 {
                0
            } else if aim >= total(heights) {
                total(heights) - 1
            } else {
                aim
            })
        }),
{
    let from = clamped_cursor(heights, pos);
    let to = moved(heights, pos, delta);
    clamping_lands_on_a_row(heights, pos);
    back_counts_rows(heights, from.0 as int, from.1 as int, distance(delta));
    ahead_counts_rows(heights, from.0 as int, from.1 as int, distance(delta));
    rows_split(heights, from);
    index_counts_rows_before(heights, from);
    height_bound(heights, to.0);
    index_counts_rows_before(heights, (to.0 as usize, to.1 as usize));
}

/// The window that follows the tail ends there: it has exactly its height of
/// rows, or all of them where there are fewer.
pub proof fn tail_window_ends_at_the_tail(heights: Seq<nat>, height: nat)
    requires
        heights.len() > 0,
    ensures
        ({
            let pos = tail_start(heights, height);
            &&& 0 <= pos.0 < heights.len()
            &&& 0 <= pos.1 <= heights[pos.0]
            &&& total(heights.take(pos.0)) + pos.1 == (if total(heights) >= height {
                total(heights) - height
            } else {
                0
            })
        }),
    decreases heights.len(),
{
    let last = heights.len() - 1;
    assert(heights.take(last) =~= heights.drop_last());
    if heights.last() >= height {
    } else if heights.len() == 1 {
        assert(heights.drop_last() =~= Seq::<nat>::empty());
        assert(heights.take(0) =~= Seq::<nat>::empty());
        reveal_with_fuel(total, 2);
        reveal_with_fuel(tail_start, 2);
    } else {
        let rest = heights.drop_last();
        tail_window_ends_at_the_tail(rest, (height - heights.last()) as nat);
        let pos = tail_start(rest, (height - heights.last()) as nat);
        assert(rest.take(pos.0) =~= heights.take(pos.0));
    }
}

/// Scrolling back never follows on its own, and scrolling ahead past the end
/// always does; what fits the window is always followed.
pub proof fn scrolling_policy(scroll: ScrollState, heights: Seq<nat>, height: nat, delta: isize)
    requires
        height > 0,
        heights.len() > 0,
        delta != 0,
    ensures
        fits_window(heights, height) ==> scrolled(scroll, heights, height, delta) == following(),
        !fits_window(heights, height) && delta < 0 ==> !scrolled(
            scroll,
            heights,
            height,
            delta,
        ).follow_bottom,
        scrolled(scroll, heights, height, delta).follow_bottom ==> scrolled(
            scroll,
            heights,
            height,
            delta,
        ) == following(),
{
}

} // verus!
