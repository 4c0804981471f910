//! Selecting transcript rows with the pointer.

use vstd::prelude::*;

use super::browse::unfollowed;
use super::{
    heights_at, scrolled_by, thought_toggled, visible_of, App, AppView,
};
use crate::app::effect::{Effect, EffectView};
use crate::app::select;
use crate::app::select::{
    clamped_pos, edge, hit, inside, selected_text, void, BandLayout, SelectPos, Selection,
};

verus! {

/// Whether an overlay is open.
pub open spec fn covered_by_overlay(a: AppView) -> bool {
    a.confirm is Some || a.picker is Some
}

/// Whether a selection is being dragged.
pub open spec fn dragging(a: AppView) -> bool {
    a.selection is Some && a.selection->0.dragging
}

/// The selection within the rows there are; a collapsed one is none.
pub open spec fn settled_selection(a: AppView) -> Option<Selection> {
    match a.selection {
        None => None,
        Some(selection) => {
            let within = Selection {
                anchor: clamped_pos(selection.anchor, a.cells.lines, a.width as nat),
                head: clamped_pos(selection.head, a.cells.lines, a.width as nat),
                dragging: selection.dragging,
            };
            if within.anchor == within.head {
                None
            } else {
                Some(within)
            }
        },
    }
}

/// The layout of the transcript band, noted.
pub open spec fn noted(a: AppView, band: BandLayout) -> AppView {
    AppView {
        width: band.width as usize,
        height: band.height as usize,
        band,
        band_height: band.height,
        ..a
    }
}

/// A drag past an edge of the band scrolls by one row.
pub open spec fn nudged(a: AppView, y: u16, drag: bool, now: u64) -> AppView {
    if drag && !void(a.band) && y < a.band.y {
        scrolled_by(a, a.width, a.height, -1isize, now)
    } else if drag && !void(a.band) && y >= edge(a.band.y, a.band.height) {
        scrolled_by(a, a.width, a.height, 1, now)
    } else {
        a
    }
}

/// The column of the pointer within the band.
pub open spec fn pointer_col(band: BandLayout, x: u16) -> usize {
    if x >= band.x {
        (x - band.x) as usize
    } else {
        0
    }
}

/// What is under the pointer; a drag outside the band counts for the nearest
/// edge row.
#[verifier::opaque]
pub open spec fn pointed(a: AppView, x: u16, y: u16, drag: bool, now: u64) -> Option<SelectPos> {
    let rows = visible_of(a, a.width, a.height, now).rows;
    if inside(a.band, x, y) {
        hit(rows, (x - a.band.x) as usize, (y - a.band.y) as usize)
    } else if !drag || void(a.band) {
        None
    } else if y < a.band.y {
        hit(rows, pointer_col(a.band, x), 0)
    } else {
        hit(
            rows,
            pointer_col(a.band, x),
            if a.height > 0 {
                (a.height - 1) as usize
            } else {
                0
            },
        )
    }
}

/// The view no longer follows the tail, but stays where it is.
#[verifier::opaque]
pub open spec fn view_kept(a: AppView, now: u64) -> AppView {
    if a.height == 0 {
        a
    } else {
        AppView {
            scroll: unfollowed(
                a.scroll,
                heights_at(a, a.width, now),
                a.height as nat,
            ),
            ..a
        }
    }
}

pub open spec fn selection_started(a: AppView, x: u16, y: u16, now: u64) -> AppView {
    if covered_by_overlay(a) {
        a
    } else {
        match pointed(a, x, y, false, now) {
            Some(pos) => AppView {
                selection: Some(Selection { anchor: pos, head: pos, dragging: true }),
                ..view_kept(a, now)
            },
            None => AppView { selection: None, ..a },
        }
    }
}

pub open spec fn selection_dragged(a: AppView, x: u16, y: u16, now: u64) -> AppView {
    if covered_by_overlay(a) || !dragging(a) {
        a
    } else {
        let b = nudged(a, y, true, now);
        match pointed(b, x, y, true, now) {
            Some(pos) => AppView {
                selection: Some(Selection { head: pos, ..a.selection->0 }),
                ..b
            },
            None => b,
        }
    }
}

/// The button is up: the drag ends where the pointer is.
pub open spec fn drag_ended(a: AppView, x: u16, y: u16, now: u64) -> AppView {
    if !dragging(a) {
        a
    } else {
        let b = nudged(a, y, true, now);
        AppView {
            selection: Some(
                Selection {
                    anchor: a.selection->0.anchor,
                    head: match pointed(b, x, y, true, now) {
                        Some(pos) => pos,
                        None => a.selection->0.head,
                    },
                    dragging: false,
                },
            ),
            ..b
        }
    }
}

/// The end of a selection; a collapsed one was a click, which folds or unfolds
/// a reasoning run.
pub open spec fn selection_ended(a: AppView, x: u16, y: u16, now: u64) -> AppView {
    if covered_by_overlay(a) || a.selection is None {
        a
    } else {
        let b = drag_ended(a, x, y, now);
        let selection = b.selection->0;
        if selection.anchor == selection.head {
            AppView {
                selection: None,
                ..thought_toggled(b, selection.anchor.cell, selection.anchor.row)
            }
        } else {
            b
        }
    }
}

/// The clipboard write for what is selected, if anything is.
pub open spec fn clipboard_copy(a: AppView) -> Option<EffectView> {
    match settled_selection(a) {
        Some(selection) => {
            let text = selected_text(a.cells.lines, a.width as nat, selection);
            if text.len() > 0 {
                Some(EffectView::WriteClipboard(text))
            } else {
                None
            }
        },
        None => None,
    }
}

impl App {
    pub fn has_overlay(&self) -> (yes: bool)
        ensures
            yes == covered_by_overlay(self@),
    {
        proof {
            reveal(App::model);
            reveal(App::wf);
        }
        self.confirm.is_some() || self.picker.is_some()
    }

    pub fn is_selecting(&self) -> (yes: bool)
        ensures
            yes == dragging(self@),
    {
        proof {
            reveal(App::model);
            reveal(App::wf);
        }
        match self.selection {
            Some(selection) => selection.dragging,
            None => false,
        }
    }

    /// The selection within the rows there are.
    pub fn clamped_selection(&self) -> (selection: Option<Selection>)
        ensures
            selection == settled_selection(self@),
    {
        proof {
            reveal(App::model);
            reveal(App::wf);
        }
        match self.selection {
            Some(selection) => {
                let cells = self.cells.cells();
                let within = Selection {
                    anchor: select::clamp_pos(selection.anchor, cells, self.layout_width),
                    head: select::clamp_pos(selection.head, cells, self.layout_width),
                    dragging: selection.dragging,
                };
                if within.is_collapsed() {
                    None
                } else {
                    Some(within)
                }
            },
            None => None,
        }
    }

    pub fn has_selection(&self) -> (yes: bool)
        ensures
            yes == (settled_selection(self@) is Some),
    {
        proof {
            reveal(App::model);
            reveal(App::wf);
        }
        self.clamped_selection().is_some()
    }

    pub fn note_transcript_layout(&mut self, history: BandLayout)
        requires
            old(self).wf(),
        ensures
            final(self).wf(),
            final(self)@ == noted(old(self)@, history),
    {
        proof {
            reveal(App::model);
            reveal(App::wf);
        }
        self.layout_width = history.width as usize;
        self.layout_history_height = history.height as usize;
        self.history_band = history;
        self.band_height = history.height;
    }

    /// The true height of the band; the painted part may be shorter.
    pub fn note_band_height(&mut self, height: u16)
        requires
            old(self).wf(),
        ensures
            final(self).wf(),
            final(self)@ == (AppView { band_height: height, ..old(self)@ }),
    {
        proof {
            reveal(App::model);
            reveal(App::wf);
        }
        self.band_height = height;
    }

    pub fn note_history_layout(&mut self, width: usize, history_height: usize)
        requires
            old(self).wf(),
        ensures
            final(self).wf(),
            final(self)@ == noted(
                old(self)@,
                BandLayout {
                    x: 0,
                    y: 0,
                    width: u16_capped(width),
                    height: u16_capped(history_height),
                },
            ),
    {
        self.note_transcript_layout(
            BandLayout::from_parts(0, 0, sat_u16(width), sat_u16(history_height)),
        );
    }

    pub fn clear_selection(&mut self)
        requires
            old(self).wf(),
        ensures
            final(self).wf(),
            final(self)@ == (AppView { selection: None, ..old(self)@ }),
    {
        proof {
            reveal(App::model);
            reveal(App::wf);
        }
        self.selection = None;
    }

    pub fn select_start(&mut self, x: u16, y: u16, now: u64)
        requires
            old(self).wf(),
        ensures
            final(self).wf(),
            final(self)@ == selection_started(old(self)@, x, y, now),
    {
        proof {
            reveal(App::model);
            reveal(App::wf);
        }
        if self.has_overlay() {
            return ;
        }
        match self.pointer_pos(x, y, false, now) {
            Some(pos) => {
                self.unfollow_keep_view(now);
                self.selection = Some(Selection::start(pos));
            },
            None => self.clear_selection(),
        }
    }

    pub fn select_drag(&mut self, x: u16, y: u16, now: u64)
        requires
            old(self).wf(),
        ensures
            final(self).wf(),
            final(self)@ == selection_dragged(old(self)@, x, y, now),
    {
        proof {
            reveal(App::model);
            reveal(App::wf);
        }
        if self.has_overlay() || !self.is_selecting() {
            return ;
        }
        if let Some(pos) = self.pointer_pos(x, y, true, now) {
            if let Some(selection) = self.selection {
                self.selection = Some(Selection { head: pos, ..selection });
            }
        }
    }

    pub fn select_end(&mut self, x: u16, y: u16, now: u64)
        requires
            old(self).wf(),
        ensures
            final(self).wf(),
            final(self)@ == selection_ended(old(self)@, x, y, now),
    {
        proof {
            reveal(App::model);
            reveal(App::wf);
        }
        if self.has_overlay() {
            return ;
        }
        let selection = match self.selection {
            Some(selection) => selection,
            None => return ,
        };
        let mut ended = selection;
        if selection.dragging {
            let pos = self.pointer_pos(x, y, true, now);
            if let Some(pos) = pos {
                ended = Selection { anchor: selection.anchor, head: pos, dragging: false };
            } else {
                ended = Selection {
                    anchor: selection.anchor,
                    head: selection.head,
                    dragging: false,
                };
            }
            self.selection = Some(ended);
        }
        assert(self@ == drag_ended(old(self)@, x, y, now));
        if ended.is_collapsed() {
            self.toggle_reasoning_block(ended.anchor.cell, ended.anchor.row);
            self.clear_selection();
        }
    }

    /// The clipboard write for what is selected.
    pub fn copy_selection(&self) -> (effect: Option<Effect>)
        ensures
            effect.deep_view() == clipboard_copy(self@),
    {
        proof {
            reveal(App::model);
            reveal(App::wf);
        }
        match self.clamped_selection() {
            Some(selection) => {
                let text = select::extract_text(self.cells.cells(), self.layout_width, selection);
                if text.as_str().is_empty() {
                    None
                } else {
                    Some(Effect::WriteClipboard(text))
                }
            },
            None => None,
        }
    }

    fn unfollow_keep_view(&mut self, now: u64)
        requires
            old(self).wf(),
        ensures
            final(self).wf(),
            final(self)@ == view_kept(old(self)@, now),
    {
        proof {
            reveal(App::model);
            reveal(App::wf);
            reveal(view_kept);
        }
        let height = self.layout_history_height;
        if height == 0 {
            return ;
        }
        let width = self.layout_width;
        self.rewrap(width, now);
        self.scroll.unfollow_keep_wrapped(&self.cells.cache.rows, height);
    }

    /// What is under the pointer; a drag past an edge scrolls first.
    fn pointer_pos(&mut self, x: u16, y: u16, drag: bool, now: u64) -> (pos: Option<SelectPos>)
        requires
            old(self).wf(),
        ensures
            final(self).wf(),
            final(self)@ == nudged(old(self)@, y, drag, now),
            pos == pointed(nudged(old(self)@, y, drag, now), x, y, drag, now),
    {
        proof {
            reveal(App::model);
            reveal(App::wf);
            reveal(pointed);
        }
        let history = self.history_band;
        let width = self.layout_width;
        let height = self.layout_history_height;
        if drag {
            if history.above(y) {
                self.scroll_transcript(width, height, -1, now);
            } else if history.below(y) {
                self.scroll_transcript(width, height, 1, now);
            }
        }
        if let Some((col, row)) = history.relative(x, y) {
            let slice = self.history_slice(width, height, now);
            return select::hit_history(&slice, col, row);
        }
        if drag {
            return self.edge_pos(x, y, now);
        }
        None
    }

    fn edge_pos(&mut self, x: u16, y: u16, now: u64) -> (pos: Option<SelectPos>)
        requires
            old(self).wf(),
            !inside(old(self)@.band, x, y),
        ensures
            final(self).wf(),
            final(self)@ == old(self)@,
            pos == pointed(old(self)@, x, y, true, now),
    {
        proof {
            reveal(App::model);
            reveal(App::wf);
            reveal(pointed);
        }
        let history = self.history_band;
        if history.is_empty() {
            return None;
        }
        let width = self.layout_width;
        let height = self.layout_history_height;
        let col: usize = if x >= history.x {
            (x - history.x) as usize
        } else {
            0
        };
        let slice = self.history_slice(width, height, now);
        if y < history.y {
            return select::hit_history(&slice, col, 0);
        }
        select::hit_history(&slice, col, height.saturating_sub(1))
    }
}

/// A count cut to what a terminal coordinate holds.
pub open spec fn u16_capped(value: usize) -> u16 {
    if value > u16::MAX {
        u16::MAX
    } else {
        value as u16
    }
}

fn sat_u16(value: usize) -> (cut: u16)
    ensures
        cut == u16_capped(value),
{
    if value > 65535 {
        65535
    } else {
        value as u16
    }
}

// ---------------------------------------------------------------------------
// Laws
// ---------------------------------------------------------------------------

/// A plain click on the head of a reasoning run folds or unfolds it and leaves
/// nothing selected.
pub proof fn click_toggles_reasoning(a: AppView, x: u16, y: u16, now: u64)
    requires
        !covered_by_overlay(a),
        a.selection is Some,
        drag_ended(a, x, y, now).selection->0.anchor == drag_ended(a, x, y, now).selection->0.head,
    ensures
        selection_ended(a, x, y, now).selection is None,
        ({
            let anchor = a.selection->0.anchor;
            selection_ended(a, x, y, now).thoughts_expanded == thought_toggled(
                drag_ended(a, x, y, now),
                anchor.cell,
                anchor.row,
            ).thoughts_expanded
        }),
{
}

/// A press in the transcript begins a selection at what is under the pointer; a
/// drag moves one end of it and keeps the other; letting go keeps both and ends
/// the drag.
pub proof fn drags_keep_their_beginning(a: AppView, x: u16, y: u16, now: u64)
    requires
        !covered_by_overlay(a),
    ensures
        pointed(a, x, y, false, now) is Some ==> selection_started(a, x, y, now).selection == Some(
            Selection {
                anchor: pointed(a, x, y, false, now).unwrap(),
                head: pointed(a, x, y, false, now).unwrap(),
                dragging: true,
            },
        ),
        pointed(a, x, y, false, now) is None ==> selection_started(a, x, y, now).selection is None,
        dragging(a) ==> selection_dragged(a, x, y, now).selection is Some && selection_dragged(
            a,
            x,
            y,
            now,
        ).selection.unwrap().anchor == a.selection.unwrap().anchor && dragging(
            selection_dragged(a, x, y, now),
        ),
        dragging(a) ==> drag_ended(a, x, y, now).selection is Some && drag_ended(
            a,
            x,
            y,
            now,
        ).selection.unwrap().anchor == a.selection.unwrap().anchor && !dragging(
            drag_ended(a, x, y, now),
        ),
        !dragging(a) ==> selection_dragged(a, x, y, now) == a,
{
}

/// Within the band the pointer hits the row and column that it is at, counted
/// from the band's own corner; outside it only a drag hits anything.
pub proof fn the_pointer_hits_what_is_under_it(a: AppView, x: u16, y: u16, drag: bool, now: u64)
    ensures
        inside(a.band, x, y) ==> pointed(a, x, y, drag, now) == hit(
            visible_of(a, a.width, a.height, now).rows,
            (x - a.band.x) as usize,
            (y - a.band.y) as usize,
        ),
        !inside(a.band, x, y) && !drag ==> pointed(a, x, y, drag, now) is None,
{
    reveal(pointed);
}

/// What is copied is what is selected, and nothing where that is nothing.
pub proof fn copies_are_what_is_selected(a: AppView)
    ensures
        a.selection is None ==> clipboard_copy(a) is None,
        clipboard_copy(a) is Some ==> clipboard_copy(a).unwrap() is WriteClipboard && (
        clipboard_copy(a).unwrap()->WriteClipboard_0).len() > 0,
        settled_selection(a) is Some && selected_text(
            a.cells.lines,
            a.width as nat,
            settled_selection(a).unwrap(),
        ).len() > 0 ==> clipboard_copy(a) == Some(
            EffectView::WriteClipboard(
                selected_text(a.cells.lines, a.width as nat, settled_selection(a).unwrap()),
            ),
        ),
{
}

} // verus!
