//! Browsing the history: a cursor over the wrapped rows, with the viewport
//! behind it.

use vstd::prelude::*;

use super::{
    card_toggled, foldable, heights_at, jumped_bottom, jumped_top, opens_run, scrolled_by,
    thought_toggled, App, AppView, FocusMode,
};
use crate::app::prose::style::ProjectedRow;
use crate::app::scroll;
use crate::app::scroll::{
    clamped, clamped_cursor, fits_window, following, heights, index_of, last_row, moved, pinned,
    position_from, tail_start, window_offset, window_start, ScrollState,
};
use crate::app::transcript::{LineKind, LineView};

verus! {

/// A view that follows the tail, pinned where it is.
pub open spec fn unfollowed(scroll: ScrollState, heights: Seq<nat>, height: nat) -> ScrollState {
    if !scroll.follow_bottom {
        scroll
    } else if height == 0 || heights.len() == 0 {
        pinned((0, 0))
    } else {
        let at = tail_start(heights, height);
        pinned((at.0 as usize, at.1 as usize))
    }
}

/// A view pinned at a row, or following where everything fits.
pub open spec fn pinned_at(
    heights: Seq<nat>,
    height: nat,
    target: (usize, usize),
) -> ScrollState {
    if height == 0 || heights.len() == 0 || fits_window(heights, height) {
        following()
    } else {
        pinned(clamped(heights, Some(target)))
    }
}

/// The view that browsing starts from.
pub open spec fn reading_place(scroll: ScrollState, heights: Seq<nat>, height: nat) -> ScrollState {
    if heights.len() > 0 && height > 0 {
        unfollowed(scroll, heights, height)
    } else {
        scroll
    }
}

/// The row that a view starts with.
pub open spec fn first_row(
    scroll: ScrollState,
    heights: Seq<nat>,
    height: nat,
) -> (usize, usize) {
    if scroll.follow_bottom && heights.len() > 0 {
        let at = tail_start(heights, height);
        (at.0 as usize, at.1 as usize)
    } else {
        match scroll.pin {
            Some(pin) => pin,
            None => (0, 0),
        }
    }
}

/// Pins the view where it is and returns its first row.
fn take_place(scroll: &mut ScrollState, rows: &Vec<Vec<ProjectedRow>>, height: usize) -> (cursor: (
    usize,
    usize,
))
    ensures
        *final(scroll) == reading_place(*old(scroll), heights(rows@), height as nat),
        cursor == first_row(*final(scroll), heights(rows@), height as nat),
{
    if rows.len() > 0 && height > 0 {
        scroll.unfollow_keep_wrapped(rows, height);
    }
    if scroll.follow_bottom && rows.len() > 0 {
        scroll::start_from_tail(rows, height)
    } else {
        match scroll.pin {
            Some(pin) => pin,
            None => (0, 0),
        }
    }
}

/// The composer left for the history: the view stays where it is and the
/// cursor takes its first row.
pub open spec fn browsing(a: AppView, now: u64) -> AppView {
    if a.focus == FocusMode::Browse {
        a
    } else {
        let h = heights_at(a, a.width, now);
        let view = reading_place(a.scroll, h, a.height as nat);
        AppView {
            selection: None,
            completion: None,
            scroll: view,
            focus: FocusMode::Browse,
            cursor: first_row(view, h, a.height as nat),
            ..a
        }
    }
}

/// The history left for the composer; the scroll position stays.
pub open spec fn composing(a: AppView) -> AppView {
    if a.focus == FocusMode::Browse {
        AppView { focus: FocusMode::Input, selection: None, ..a }
    } else {
        a
    }
}

/// A view moved just so far that a row is in it.
pub open spec fn showing(
    scroll: ScrollState,
    heights: Seq<nat>,
    height: nat,
    cursor: (usize, usize),
) -> ScrollState {
    let index = index_of(heights, cursor);
    let top = window_offset(scroll, heights, height);
    if height == 0 || heights.len() == 0 {
        scroll
    } else if index < top {
        let at = position_from(heights, 0, index as int);
        pinned_at(heights, height, (at.0 as usize, at.1 as usize))
    } else if index >= top + height {
        let first = if index >= height - 1 {
            index - (height - 1)
        } else {
            0
        };
        let at = position_from(heights, 0, first);
        pinned_at(heights, height, (at.0 as usize, at.1 as usize))
    } else {
        scroll
    }
}

fn show_row(
    scroll: &mut ScrollState,
    rows: &Vec<Vec<ProjectedRow>>,
    height: usize,
    cursor: (usize, usize),
)
    ensures
        *final(scroll) == showing(*old(scroll), heights(rows@), height as nat, cursor),
{
    if height == 0 || rows.len() == 0 {
        return ;
    }
    let index = scroll::logical_index(rows, cursor);
    let top = scroll.scroll_offset(rows, height);
    if index < top {
        let target = scroll::position_at_index(rows, index);
        scroll.pin_at(rows, height, target);
    } else if index - top >= height {
        let target = scroll::position_at_index(rows, index.saturating_sub(height - 1));
        scroll.pin_at(rows, height, target);
    }
}

/// The viewport moved just so far that the cursor's row is in it.
pub open spec fn cursor_in_view(a: AppView, height: usize, now: u64) -> AppView {
    let h = heights_at(a, a.width, now);
    AppView { scroll: showing(a.scroll, h, height as nat, a.cursor), ..a }
}

/// The cursor moved by rows, the viewport behind it.
pub open spec fn cursor_stepped(a: AppView, delta: isize, now: u64) -> AppView {
    let h = heights_at(a, a.width, now);
    if h.len() == 0 {
        a
    } else {
        let at = moved(h, a.cursor, delta);
        cursor_in_view(AppView { cursor: (at.0 as usize, at.1 as usize), ..a }, a.height, now)
    }
}

/// The rows of a page: two short of the viewport, one at least.
pub open spec fn page_rows(height: usize) -> int {
    if height <= 3 {
        1
    } else {
        height - 2
    }
}

/// The viewport moved by a page, then the cursor.
pub open spec fn cursor_paged(a: AppView, delta: isize, now: u64) -> AppView {
    let rows = if delta < 0 {
        (-a.height) as isize
    } else {
        a.height as isize
    };
    cursor_stepped(
        scrolled_by(a, a.width, a.height, rows, now),
        (delta * page_rows(a.height)) as isize,
        now,
    )
}

/// View and cursor at the head.
pub open spec fn cursor_first(a: AppView, now: u64) -> AppView {
    AppView { cursor: (0, 0), ..jumped_top(a, now) }
}

/// View and cursor at the tail.
pub open spec fn cursor_last(a: AppView, now: u64) -> AppView {
    let at = last_row(heights_at(a, a.width, now));
    AppView { cursor: (at.0 as usize, at.1 as usize), ..jumped_bottom(a, now) }
}

/// Whether the row belongs to the body of a foldable card.
pub open spec fn on_card_body(lines: Seq<LineView>, cell: usize, row: usize) -> bool {
    &&& cell < lines.len()
    &&& lines[cell as int].kind == LineKind::Tool
    &&& foldable(lines[cell as int])
    &&& lines[cell as int].header is Some ==> row > 0
}

/// The cursor back on a row, and in view.
pub open spec fn cursor_reclamped(a: AppView, now: u64) -> AppView {
    let h = heights_at(a, a.width, now);
    cursor_in_view(AppView { cursor: clamped_cursor(h, a.cursor), ..a }, a.height, now)
}

/// What is under the cursor folded or unfolded: the head of a reasoning run or
/// the body of a card.
pub open spec fn fold_toggled(a: AppView, now: u64) -> AppView {
    if a.cursor.1 == 0 && opens_run(a.cells.lines, a.cursor.0 as int) {
        cursor_reclamped(thought_toggled(a, a.cursor.0, a.cursor.1), now)
    } else if on_card_body(a.cells.lines, a.cursor.0, a.cursor.1) {
        cursor_reclamped(card_toggled(a, a.cursor.0), now)
    } else {
        a
    }
}

impl App {
    pub fn focus_mode(&self) -> (mode: FocusMode)
        ensures
            mode == self@.focus,
    {
        proof {
            reveal(App::model);
            reveal(App::wf);
        }
        self.focus_mode
    }

    pub fn in_browse_mode(&self) -> (yes: bool)
        ensures
            yes == (self@.focus == FocusMode::Browse),
    {
        proof {
            reveal(App::model);
            reveal(App::wf);
        }
        self.focus_mode == FocusMode::Browse
    }

    /// The cursor while the history is browsed.
    pub fn browse_cursor(&self) -> (cursor: Option<(usize, usize)>)
        ensures
            cursor == (if self@.focus == FocusMode::Browse {
                Some(self@.cursor)
            } else {
                None
            }),
    {
        proof {
            reveal(App::model);
            reveal(App::wf);
        }
        if self.in_browse_mode() {
            Some(self.browse_cursor)
        } else {
            None
        }
    }

    pub fn enter_browse(&mut self, now: u64)
        requires
            old(self).wf(),
        ensures
            final(self).wf(),
            final(self)@ == browsing(old(self)@, now),
    {
        proof {
            reveal(App::model);
            reveal(App::wf);
        }
        if self.focus_mode == FocusMode::Browse {
            return ;
        }
        self.selection = None;
        self.completion = None;
        let width = self.layout_width;
        let height = self.layout_history_height;
        self.rewrap(width, now);
        self.focus_mode = FocusMode::Browse;
        self.browse_cursor = take_place(&mut self.scroll, &self.cells.cache.rows, height);
    }

    pub fn exit_browse(&mut self)
        requires
            old(self).wf(),
        ensures
            final(self).wf(),
            final(self)@ == composing(old(self)@),
    {
        proof {
            reveal(App::model);
            reveal(App::wf);
        }
        if self.focus_mode != FocusMode::Browse {
            return ;
        }
        self.focus_mode = FocusMode::Input;
        self.selection = None;
    }

    /// Moves the cursor by rows and the viewport behind it.
    pub fn browse_step(&mut self, delta: isize, now: u64)
        requires
            old(self).wf(),
        ensures
            final(self).wf(),
            final(self)@ == cursor_stepped(old(self)@, delta, now),
    {
        proof {
            reveal(App::model);
            reveal(App::wf);
        }
        let width = self.layout_width;
        let height = self.layout_history_height;
        self.rewrap(width, now);
        if self.cells.cache.rows.len() == 0 {
            return ;
        }
        self.browse_cursor = scroll::move_cursor(
            &self.cells.cache.rows,
            self.browse_cursor,
            delta,
        );
        self.scroll_cursor_into_view(height, now);
    }

    /// Pages the viewport, and the cursor by a page of its own.
    pub fn browse_page(&mut self, delta: isize, now: u64)
        requires
            old(self).wf(),
            isize::MIN <= delta * page_rows(old(self)@.height) <= isize::MAX,
        ensures
            final(self).wf(),
            final(self)@ == cursor_paged(old(self)@, delta, now),
    {
        proof {
            reveal(App::model);
            reveal(App::wf);
        }
        let width = self.layout_width;
        let height = self.layout_history_height;
        if delta < 0 {
            self.page_transcript_up(width, height, now);
        } else {
            self.page_transcript_down(width, height, now);
        }
        let page: isize = if height <= 3 {
            1
        } else {
            (height - 2) as isize
        };
        self.browse_step(delta * page, now);
    }

    /// Folds or unfolds what is under the cursor.
    pub fn browse_toggle_fold(&mut self, now: u64)
        requires
            old(self).wf(),
        ensures
            final(self).wf(),
            final(self)@ == fold_toggled(old(self)@, now),
    {
        proof {
            reveal(App::model);
            reveal(App::wf);
        }
        let (cell, row) = self.browse_cursor;
        if self.is_think_head(cell, row) {
            self.toggle_reasoning_block(cell, row);
            self.rewrap_cursor(now);
        } else if self.is_tool_card_body(cell, row) {
            self.toggle_tool_card_fold(cell);
            self.rewrap_cursor(now);
        }
    }

    pub fn browse_home(&mut self, now: u64)
        requires
            old(self).wf(),
        ensures
            final(self).wf(),
            final(self)@ == cursor_first(old(self)@, now),
    {
        proof {
            reveal(App::model);
            reveal(App::wf);
        }
        self.jump_transcript_top(now);
        self.browse_cursor = (0, 0);
    }

    pub fn browse_end(&mut self, now: u64)
        requires
            old(self).wf(),
        ensures
            final(self).wf(),
            final(self)@ == cursor_last(old(self)@, now),
    {
        proof {
            reveal(App::model);
            reveal(App::wf);
        }
        self.jump_transcript_bottom(now);
        let width = self.layout_width;
        self.rewrap(width, now);
        self.browse_cursor = scroll::find_last_row(&self.cells.cache.rows);
    }

    fn is_think_head(&self, cell: usize, row: usize) -> (yes: bool)
        ensures
            yes == (row == 0 && opens_run(self@.cells.lines, cell as int)),
    {
        proof {
            reveal(App::model);
            reveal(App::wf);
        }
        if row != 0 || cell >= self.cells.display_len() {
            return false;
        }
        if self.cells.display_kind(cell) != LineKind::Reasoning {
            return false;
        }
        cell == 0 || self.cells.display_kind(cell - 1) != LineKind::Reasoning
    }

    fn is_tool_card_body(&self, cell: usize, row: usize) -> (yes: bool)
        ensures
            yes == on_card_body(self@.cells.lines, cell, row),
    {
        proof {
            reveal(App::model);
            reveal(App::wf);
        }
        let line = match self.cells.cell_at(cell) {
            Some(line) => line,
            None => return false,
        };
        assert(self@.cells.lines[cell as int] == line.deep_view());
        if line.kind != LineKind::Tool {
            return false;
        }
        let body = match &line.body {
            Some(body) => body,
            None => return false,
        };
        if body.lines.len() <= body.threshold {
            return false;
        }
        if line.header.is_some() {
            row > 0
        } else {
            true
        }
    }

    /// The rows changed under the cursor: puts it back on one, and in view.
    fn rewrap_cursor(&mut self, now: u64)
        requires
            old(self).wf(),
        ensures
            final(self).wf(),
            final(self)@ == cursor_reclamped(old(self)@, now),
    {
        proof {
            reveal(App::model);
            reveal(App::wf);
        }
        let width = self.layout_width;
        let height = self.layout_history_height;
        self.rewrap(width, now);
        self.browse_cursor = scroll::clamp_cursor(&self.cells.cache.rows, self.browse_cursor);
        self.scroll_cursor_into_view(height, now);
    }

    /// Moves the viewport so that the cursor's row is in it.
    fn scroll_cursor_into_view(&mut self, height: usize, now: u64)
        requires
            old(self).wf(),
        ensures
            final(self).wf(),
            final(self)@ == cursor_in_view(old(self)@, height, now),
    {
        proof {
            reveal(App::model);
            reveal(App::wf);
        }
        if height == 0 {
            return ;
        }
        let width = self.layout_width;
        self.rewrap(width, now);
        let cursor = self.browse_cursor;
        show_row(&mut self.scroll, &self.cells.cache.rows, height, cursor);
    }
}

// ---------------------------------------------------------------------------
// Laws
// ---------------------------------------------------------------------------

proof fn tail_starts_on_a_row(heights: Seq<nat>, height: nat)
    requires
        heights.len() > 0,
        height > 0,
    ensures
        ({
            let at = tail_start(heights, height);
            &&& 0 <= at.0 < heights.len()
            &&& at.1 == 0 || 0 <= at.1 < heights[at.0]
        }),
    decreases heights.len(),
{
    if heights.last() < height {
        let rest = heights.drop_last();
        if rest.len() > 0 {
            tail_starts_on_a_row(rest, (height - heights.last()) as nat);
        } else {
            assert(tail_start(rest, (height - heights.last()) as nat) == (0int, 0int));
        }
    }
}

/// Following no longer does not move the window: it starts with the row that it
/// started with.
pub proof fn unfollowing_keeps_the_window(scroll: ScrollState, heights: Seq<nat>, height: nat)
    requires
        height > 0,
        heights.len() <= usize::MAX,
        forall|i: int| 0 <= i < heights.len() ==> #[trigger] heights[i] <= usize::MAX,
    ensures
        window_start(unfollowed(scroll, heights, height), heights, height) == window_start(
            scroll,
            heights,
            height,
        ),
{
    if heights.len() > 0 {
        tail_starts_on_a_row(heights, height);
        let at = tail_start(heights, height);
        assert(heights[at.0] <= usize::MAX);
    }
}

/// A round-trip through the history keeps the draft, the attachments, the
/// transcript and the reading place.
pub proof fn browsing_keeps_the_draft(a: AppView, now: u64)
    ensures
        composing(browsing(a, now)).input == a.input,
        composing(browsing(a, now)).attachments == a.attachments,
        composing(browsing(a, now)).draft_generation == a.draft_generation,
        composing(browsing(a, now)).cells == a.cells,
        composing(browsing(a, now)).scroll == browsing(a, now).scroll,
        composing(browsing(a, now)).focus == FocusMode::Input,
{
}

/// A step of the cursor leaves everything but the cursor and the view alone.
pub proof fn stepping_moves_only_the_view(a: AppView, delta: isize, now: u64)
    ensures
        cursor_stepped(a, delta, now) == (AppView {
            cursor: cursor_stepped(a, delta, now).cursor,
            scroll: cursor_stepped(a, delta, now).scroll,
            ..a
        }),
{
}

proof fn pinning_shows_the_row(heights: Seq<nat>, height: nat, first: usize)
    requires
        height > 0,
        first < scroll::total(heights) <= usize::MAX,
        heights.len() <= usize::MAX,
    ensures
        ({
            let at = position_from(heights, 0, first as int);
            let top = window_offset(
                pinned_at(heights, height, (at.0 as usize, at.1 as usize)),
                heights,
                height,
            );
            let all = scroll::total(heights);
            top == if all <= height {
                0
            } else if first + height <= all {
                first as int
            } else {
                all - height
            }
        }),
{
    scroll::position_has_its_index(heights, first);
    let pos = position_from(heights, 0, first as int);
    let at = (pos.0 as usize, pos.1 as usize);
    assert(clamped(heights, Some(at)) == at);
}

/// Wherever the cursor goes, the window shows its row; and it moves only as far as
/// that takes, not at all while the row is shown.
pub proof fn the_cursor_stays_in_view(
    scroll: ScrollState,
    heights: Seq<nat>,
    height: nat,
    cursor: (usize, usize),
)
    requires
        height > 0,
        scroll::is_row(heights, cursor),
        scroll::total(heights) <= usize::MAX,
        heights.len() <= usize::MAX,
    ensures
        ({
            let row = scroll::rows_before(heights, cursor);
            let before = window_offset(scroll, heights, height);
            let after = window_offset(showing(scroll, heights, height, cursor), heights, height);
            &&& after <= row < after + height
            &&& before <= row < before + height ==> showing(scroll, heights, height, cursor)
                == scroll
        }),
{
    let row = scroll::rows_before(heights, cursor);
    scroll::index_counts_rows_before(heights, cursor);
    scroll::rows_split(heights, cursor);
    assert(row < scroll::total(heights));
    let top = window_offset(scroll, heights, height);
    if row < top {
        pinning_shows_the_row(heights, height, row as usize);
    } else if row >= top + height {
        pinning_shows_the_row(heights, height, (row - (height - 1)) as usize);
    }
}

/// Browsing begins at the first row that is shown, and its ends are the first and
/// the last row of the transcript.
pub proof fn browsing_begins_where_the_view_is(a: AppView, now: u64)
    requires
        a.focus != FocusMode::Browse,
    ensures
        browsing(a, now).focus == FocusMode::Browse,
        browsing(a, now).selection is None,
        browsing(a, now).input == a.input,
        a.scroll.follow_bottom && heights_at(a, a.width, now).len() > 0 && a.height > 0 ==> browsing(
            a,
            now,
        ).cursor == (
            tail_start(heights_at(a, a.width, now), a.height as nat).0 as usize,
            tail_start(heights_at(a, a.width, now), a.height as nat).1 as usize,
        ),
        !a.scroll.follow_bottom && a.scroll.pin is Some ==> browsing(a, now).cursor
            == a.scroll.pin.unwrap(),
        cursor_first(a, now).cursor == (0usize, 0usize),
{
}

} // verus!
