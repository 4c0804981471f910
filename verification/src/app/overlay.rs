//! Overlay state and its pure frame projection.
//!
//! The session picker, the model picker and the approval prompt all project to
//! an [`OverlayFrame`] of typed rows plus a content width. Pickers are dialogs of
//! a fixed size, approvals are as large as their content.

use vstd::prelude::*;

use super::prose::style::cap;
use super::text;
use super::text::{cell_width, padded, takes_at_most, truncated};
use crate::strs;
use crate::strs::{
    decimal, lines_of, lower_text, lowercase_of, occurs, occurs_at, repeated, uppercase_of,
};

verus! {

// ---------------------------------------------------------------------------
// Frames
// ---------------------------------------------------------------------------

/// Visual weight of the overlay title.
#[derive(Clone, Copy, Debug, PartialEq, Eq, Structural)]
pub enum OverlayTone {
    /// Regular pickers.
    Normal,
    /// The approval prompt.
    Warning,
}

/// Padding cells between the borders and the text zone, per side.
pub const PANEL_PAD: usize = 1;

/// Blank rows of a dialog, above and below its body.
pub const DIALOG_BLANKS: usize = 2;

/// One paintable overlay row, already fitted to the panel's text zone.
#[derive(Clone, Debug, PartialEq, Eq)]
pub enum OverlayRow {
    /// Plain body text.
    Text(String),
    /// A section header.
    Group(String),
    /// A selectable row: marker column, uniform-width primary cell, then `tail`
    /// carries the gap plus the right-aligned secondary meta.
    Entry { marked: bool, primary: String, tail: String },
    /// An indented secondary line under the highlighted entry.
    Detail(String),
    /// A quiet placeholder row.
    Empty(String),
}

/// An [`OverlayRow`] as a mathematical value.
pub enum OverlayRowView {
    Text(Seq<char>),
    Group(Seq<char>),
    Entry { marked: bool, primary: Seq<char>, tail: Seq<char> },
    Detail(Seq<char>),
    Empty(Seq<char>),
}

impl DeepView for OverlayRow {
    type V = OverlayRowView;

    open spec fn deep_view(&self) -> OverlayRowView {
        match self {
            OverlayRow::Text(value) => OverlayRowView::Text(value@),
            OverlayRow::Group(value) => OverlayRowView::Group(value@),
            OverlayRow::Entry { marked, primary, tail } => OverlayRowView::Entry {
                marked: *marked,
                primary: primary@,
                tail: tail@,
            },
            OverlayRow::Detail(value) => OverlayRowView::Detail(value@),
            OverlayRow::Empty(value) => OverlayRowView::Empty(value@),
        }
    }
}

impl OverlayRow {
    /// Display width of one row inside the text zone.
    pub fn fitted_width(&self) -> (cells: usize)
        ensures
            cells == (match self.deep_view() {
                OverlayRowView::Text(value)
                | OverlayRowView::Group(value)
                | OverlayRowView::Detail(value)
                | OverlayRowView::Empty(value) => cell_width(value) as nat,
                OverlayRowView::Entry { marked, primary, tail } => cap(
                    2 + cell_width(primary) as nat + cell_width(tail) as nat,
                ),
            }),
    {
        match self {
            OverlayRow::Text(value)
            | OverlayRow::Group(value)
            | OverlayRow::Detail(value)
            | OverlayRow::Empty(value) => text::width(value.as_str()),
            OverlayRow::Entry { primary, tail, .. } => text::width(primary.as_str()).saturating_add(
                2,
            ).saturating_add(text::width(tail.as_str())),
        }
    }
}

/// One projected row plus its selection state.
#[derive(Clone, Debug, PartialEq, Eq)]
pub struct OverlayLine {
    pub row: OverlayRow,
    pub selected: bool,
}

/// An [`OverlayLine`] as a mathematical value.
pub struct OverlayLineView {
    pub row: OverlayRowView,
    pub selected: bool,
}

impl DeepView for OverlayLine {
    type V = OverlayLineView;

    open spec fn deep_view(&self) -> OverlayLineView {
        OverlayLineView { row: self.row.deep_view(), selected: self.selected }
    }
}

/// Rendered overlay content: an embedded title, typed body rows, and one footer
/// of hints. `width` is the panel's inner content width, text zone plus one
/// padding cell per side.
#[derive(Clone, Debug, PartialEq, Eq)]
pub struct OverlayFrame {
    pub title: String,
    pub tone: OverlayTone,
    pub width: usize,
    pub body: Vec<OverlayLine>,
    pub footer: String,
}

/// An [`OverlayFrame`] as a mathematical value.
pub struct FrameView {
    pub title: Seq<char>,
    pub tone: OverlayTone,
    pub width: usize,
    pub body: Seq<OverlayLineView>,
    pub footer: Seq<char>,
}

impl DeepView for OverlayFrame {
    type V = FrameView;

    open spec fn deep_view(&self) -> FrameView {
        FrameView {
            title: self.title@,
            tone: self.tone,
            width: self.width,
            body: self.body.deep_view(),
            footer: self.footer@,
        }
    }
}

/// The text of one body row inside the panel's text zone.
pub open spec fn flat_text(line: OverlayLineView, zone: nat) -> Seq<char> {
    let body = match line.row {
        OverlayRowView::Text(value)
        | OverlayRowView::Group(value)
        | OverlayRowView::Detail(value)
        | OverlayRowView::Empty(value) => value,
        OverlayRowView::Entry { marked, primary, tail } => (if line.selected {
            "›"@
        } else if marked {
            "•"@
        } else {
            " "@
        }) + " "@ + primary + tail,
    };
    padded(truncated(body, zone), zone)
}

/// The framed text of the first body rows.
pub open spec fn flat_body(lines: Seq<OverlayLineView>, zone: nat) -> Seq<char>
    decreases lines.len(),
{
    if lines.len() == 0 {
        Seq::empty()
    } else {
        flat_body(lines.drop_last(), zone) + "\n│ "@ + flat_text(lines.last(), zone) + " │"@
    }
}

/// What `len` cells leave of `total`.
pub open spec fn rest(total: nat, len: nat) -> nat {
    if total > len {
        (total - len) as nat
    } else {
        0
    }
}

/// Flat text rendering of the whole panel.
pub open spec fn flat_frame(frame: FrameView) -> Seq<char> {
    let outer = frame.width as nat + 2;
    let zone = (frame.width - 2) as nat;
    let title = truncated(frame.title, rest(outer, 6));
    "╭─ "@ + title + " "@ + repeated('─', rest(outer, 5 + cell_width(title) as nat)) + "╮"@
        + flat_body(frame.body, zone) + "\n│ "@ + padded(truncated(frame.footer, zone), zone)
        + " │"@ + "\n╰"@ + repeated('─', frame.width as nat) + "╯"@
}

fn flat_row(line: &OverlayLine, zone: usize) -> (text: String)
    ensures
        text@ == flat_text(line.deep_view(), zone as nat),
{
    let body = match &line.row {
        OverlayRow::Text(value)
        | OverlayRow::Group(value)
        | OverlayRow::Detail(value)
        | OverlayRow::Empty(value) => value.clone(),
        OverlayRow::Entry { marked, primary, tail } => {
            let marker = if line.selected {
                "›"
            } else if *marked {
                "•"
            } else {
                " "
            };
            let mut body = strs::cat3(marker, " ", primary.as_str());
            body.push_str(tail.as_str());
            body
        },
    };
    text::pad(text::truncate(body.as_str(), zone).as_str(), zone)
}

impl OverlayFrame {
    /// Flat text rendering of the whole panel.
    pub fn to_text(&self) -> (text: String)
        requires
            2 <= self.width <= usize::MAX - 2,
        ensures
            text@ == flat_frame(self.deep_view()),
    {
        let outer: usize = self.width + 2;
        let zone: usize = self.width - 2;
        let title = text::truncate(self.title.as_str(), outer.saturating_sub(6));
        let mut out = strs::cat3("╭─ ", title.as_str(), " ");
        let dashes = outer.saturating_sub(text::width(title.as_str()).saturating_add(5));
        strs::push_repeated(&mut out, '─', dashes);
        out.push_str("╮");
        let ghost top = out@;
        let ghost lines = self.body.deep_view();
        let mut i: usize = 0;
        proof {
            assert(top + flat_body(lines.take(0), zone as nat) =~= top);
        }
        while i < self.body.len()
            invariant
                i <= self.body.len(),
                lines == self.body.deep_view(),
                out@ == top + flat_body(lines.take(i as int), zone as nat),
            decreases self.body.len() - i,
        {
            let ghost before = out@;
            proof {
                assert(lines.take(i as int + 1).drop_last() =~= lines.take(i as int));
                assert(lines.take(i as int + 1).last() == lines[i as int]);
            }
            out.push_str("\n│ ");
            out.push_str(flat_row(&self.body[i], zone).as_str());
            out.push_str(" │");
            proof {
                assert(out@ =~= top + flat_body(lines.take(i as int + 1), zone as nat));
            }
            i += 1;
        }
        proof {
            assert(lines.take(i as int) =~= lines);
        }
        out.push_str("\n│ ");
        out.push_str(
            text::pad(text::truncate(self.footer.as_str(), zone).as_str(), zone).as_str(),
        );
        out.push_str(" │");
        out.push_str("\n╰");
        strs::push_repeated(&mut out, '─', self.width);
        out.push_str("╯");
        out
    }
}

/// An empty row.
pub open spec fn blank_row() -> OverlayLineView {
    OverlayLineView { row: OverlayRowView::Text(Seq::empty()), selected: false }
}

fn blank_line() -> (line: OverlayLine)
    ensures
        line.deep_view() == blank_row(),
{
    OverlayLine { row: OverlayRow::Text(String::new()), selected: false }
}

/// The rows of a dialog body: filled up with blanks to `capacity`, with a blank
/// above and below where there is room.
pub open spec fn dialog_body(
    body: Seq<OverlayLineView>,
    capacity: nat,
    blanks: bool,
) -> Seq<OverlayLineView> {
    let full = body + Seq::new(rest(capacity, body.len()), |i: int| blank_row());
    if blanks {
        seq![blank_row()] + full.push(blank_row())
    } else {
        full
    }
}

fn finish_body(body: Vec<OverlayLine>, capacity: usize, blanks: bool) -> (lines: Vec<OverlayLine>)
    ensures
        lines.deep_view() == dialog_body(body.deep_view(), capacity as nat, blanks),
{
    let ghost start = body.deep_view();
    let mut lines = body;
    while lines.len() < capacity
        invariant
            lines.len() >= start.len(),
            start.len() < capacity ==> lines.len() <= capacity,
            start.len() >= capacity ==> lines.len() == start.len(),
            lines.deep_view() == start + Seq::new(
                (lines.len() - start.len()) as nat,
                |i: int| blank_row(),
            ),
        decreases capacity - lines.len(),
    {
        let ghost before = lines.deep_view();
        let blank = blank_line();
        lines.push(blank);
        proof {
            assert(lines.deep_view() =~= before.push(blank.deep_view()));
            assert(lines.deep_view() =~= start + Seq::new(
                (lines.len() - start.len()) as nat,
                |i: int| blank_row(),
            ));
        }
    }
    let ghost full = lines.deep_view();
    assert(full =~= start + Seq::new(rest(capacity as nat, start.len()), |i: int| blank_row()));
    if blanks {
        lines.insert(0, blank_line());
        lines.push(blank_line());
        proof {
            assert(lines.deep_view() =~= seq![blank_row()] + full.push(blank_row()));
        }
    }
    lines
}

// ---------------------------------------------------------------------------
// Picker state
// ---------------------------------------------------------------------------

/// Preview state of one session in the picker (loaded lazily, once).
#[derive(Clone, Debug, PartialEq, Eq)]
pub enum Preview {
    Loading,
    Ready(Vec<String>),
    Failed(String),
}

/// A [`Preview`] as a mathematical value.
pub enum PreviewView {
    Loading,
    Ready(Seq<Seq<char>>),
    Failed(Seq<char>),
}

impl DeepView for Preview {
    type V = PreviewView;

    open spec fn deep_view(&self) -> PreviewView {
        match self {
            Preview::Loading => PreviewView::Loading,
            Preview::Ready(lines) => PreviewView::Ready(lines.deep_view()),
            Preview::Failed(message) => PreviewView::Failed(message@),
        }
    }
}

/// A preview under the id of its session.
#[derive(Clone, Debug)]
pub struct PreviewSlot {
    pub id: String,
    pub preview: Preview,
}

/// A [`PreviewSlot`] as a mathematical value.
pub struct SlotView {
    pub id: Seq<char>,
    pub preview: PreviewView,
}

impl DeepView for PreviewSlot {
    type V = SlotView;

    open spec fn deep_view(&self) -> SlotView {
        SlotView { id: self.id@, preview: self.preview.deep_view() }
    }
}

/// The slot of an id, or the number of slots.
pub open spec fn slot_of(slots: Seq<SlotView>, id: Seq<char>) -> nat
    decreases slots.len(),
{
    if slots.len() == 0 || slots[0].id == id {
        0
    } else {
        1 + slot_of(slots.skip(1), id)
    }
}

/// The preview of an id, where there is one.
pub open spec fn preview_of(slots: Seq<SlotView>, id: Seq<char>) -> Option<PreviewView> {
    if slot_of(slots, id) < slots.len() {
        Some(slots[slot_of(slots, id) as int].preview)
    } else {
        None
    }
}

/// The slots with the preview of an id set.
pub open spec fn with_preview(
    slots: Seq<SlotView>,
    id: Seq<char>,
    preview: PreviewView,
) -> Seq<SlotView> {
    if slot_of(slots, id) < slots.len() {
        slots.update(slot_of(slots, id) as int, SlotView { id, preview })
    } else {
        slots.push(SlotView { id, preview })
    }
}

/// One listed row: a stable identity plus its display facts.
#[derive(Clone, Debug, PartialEq, Eq)]
pub struct PickerEntry {
    pub id: String,
    pub primary: String,
    pub secondary: String,
    /// Grouping key (empty disables grouping).
    pub group: String,
    /// Whether this entry is the current session / current model.
    pub marked: bool,
    /// Declared reasoning tiers (models only), light to heavy.
    pub tiers: Vec<String>,
}

/// A [`PickerEntry`] as a mathematical value.
pub struct PickView {
    pub id: Seq<char>,
    pub primary: Seq<char>,
    pub secondary: Seq<char>,
    pub group: Seq<char>,
    pub marked: bool,
    pub tiers: Seq<Seq<char>>,
}

impl DeepView for PickerEntry {
    type V = PickView;

    open spec fn deep_view(&self) -> PickView {
        PickView {
            id: self.id@,
            primary: self.primary@,
            secondary: self.secondary@,
            group: self.group@,
            marked: self.marked,
            tiers: self.tiers.deep_view(),
        }
    }
}

impl PickerEntry {
    /// An entry that shows nothing but its id.
    pub fn untitled(id: &str) -> (entry: PickerEntry)
        ensures
            entry.deep_view() == (PickView {
                id: id@,
                primary: id@,
                secondary: Seq::empty(),
                group: Seq::empty(),
                marked: false,
                tiers: Seq::empty(),
            }),
    {
        let entry = PickerEntry {
            id: id.to_owned(),
            primary: id.to_owned(),
            secondary: String::new(),
            group: String::new(),
            marked: false,
            tiers: Vec::new(),
        };
        proof {
            assert(entry.tiers.deep_view() =~= Seq::<Seq<char>>::empty());
        }
        entry
    }

    pub fn with_secondary(self, secondary: &str) -> (entry: PickerEntry)
        ensures
            entry.deep_view() == (PickView { secondary: secondary@, ..self.deep_view() }),
    {
        PickerEntry { secondary: secondary.to_owned(), ..self }
    }
}

/// The session and model overlay: a live-filtered list with a selection cursor
/// and (sessions only) lazily loaded previews under the highlight. Model pickers
/// have a second level with the highlighted model's reasoning tiers.
#[derive(Clone, Debug)]
pub struct Picker {
    pub title: &'static str,
    pub grouped: bool,
    pub entries: Vec<PickerEntry>,
    /// Case-insensitive substring query typed while the picker is open.
    pub filter: String,
    /// Index into the visible entries.
    pub selected: usize,
    /// The entry the selection returns to once the filter matches it again.
    pub restore: Option<String>,
    pub previews: Vec<PreviewSlot>,
    /// Whether the reasoning-tier level is active (model pickers only).
    pub tier_mode: bool,
    /// Highlight index into the current model's tiers.
    pub tier_selected: usize,
    /// Lowercase label of the effective effort, marked in the tier list.
    pub current_effort: Option<String>,
}

/// A [`Picker`] as a mathematical value.
pub struct PickerView {
    pub title: Seq<char>,
    pub grouped: bool,
    pub entries: Seq<PickView>,
    pub filter: Seq<char>,
    pub selected: usize,
    pub restore: Option<Seq<char>>,
    pub previews: Seq<SlotView>,
    pub tier_mode: bool,
    pub tier_selected: usize,
    pub current_effort: Option<Seq<char>>,
}

impl View for Picker {
    type V = PickerView;

    open spec fn view(&self) -> PickerView {
        PickerView {
            title: self.title@,
            grouped: self.grouped,
            entries: self.entries.deep_view(),
            filter: self.filter@,
            selected: self.selected,
            restore: self.restore.deep_view(),
            previews: self.previews.deep_view(),
            tier_mode: self.tier_mode,
            tier_selected: self.tier_selected,
            current_effort: self.current_effort.deep_view(),
        }
    }
}

/// Whether a query occurs in one of an entry's four texts; an empty query always
/// does.
pub open spec fn any_holds(
    primary: Seq<char>,
    secondary: Seq<char>,
    group: Seq<char>,
    id: Seq<char>,
    query: Seq<char>,
) -> bool {
    query.len() == 0 || occurs(primary, query) || occurs(secondary, query) || occurs(group, query)
        || occurs(id, query)
}

/// Whether an entry matches a lower-case query: it occurs in what the entry
/// shows, in its group or in its id.
pub open spec fn entry_matches(entry: PickView, query: Seq<char>) -> bool {
    any_holds(
        lowercase_of(entry.primary),
        lowercase_of(entry.secondary),
        lowercase_of(entry.group),
        lowercase_of(entry.id),
        query,
    )
}

/// Whether an entry whose texts are in lower case already matches a query in
/// lower case.
pub fn lowered_matches(
    primary: &str,
    secondary: &str,
    group: &str,
    id: &str,
    query: &str,
) -> (yes: bool)
    ensures
        yes == any_holds(primary@, secondary@, group@, id@, query@),
{
    query.is_empty() || strs::contains(primary, query) || strs::contains(secondary, query)
        || strs::contains(group, query) || strs::contains(id, query)
}

/// Whether a filter shows an entry: an empty one shows every entry, another those
/// that match it in lower case.
pub open spec fn shows(entry: PickView, filter: Seq<char>) -> bool {
    filter.len() == 0 || entry_matches(entry, lowercase_of(filter))
}

/// The indices of those of the first `count` entries that a filter shows.
pub open spec fn visible_upto(entries: Seq<PickView>, filter: Seq<char>, count: nat) -> Seq<usize>
    decreases count,
{
    if count == 0 {
        Seq::empty()
    } else {
        let before = visible_upto(entries, filter, (count - 1) as nat);
        if shows(entries[count - 1], filter) {
            before.push((count - 1) as usize)
        } else {
            before
        }
    }
}

/// The indices of the entries that match the filter.
pub open spec fn visible_of(p: PickerView) -> Seq<usize> {
    visible_upto(p.entries, p.filter, p.entries.len())
}

/// The highlighted position among the visible entries.
pub open spec fn highlight(p: PickerView) -> nat {
    let count = visible_of(p).len();
    if p.selected < count {
        p.selected as nat
    } else {
        rest(count, 1)
    }
}

/// The highlighted entry.
pub open spec fn focus(p: PickerView) -> Option<PickView> {
    if visible_of(p).len() == 0 {
        None
    } else {
        Some(p.entries[visible_of(p)[highlight(p) as int] as int])
    }
}

/// The id of the highlighted entry, empty where nothing matches.
pub open spec fn selected_id(p: PickerView) -> Seq<char> {
    match focus(p) {
        Some(entry) => entry.id,
        None => Seq::empty(),
    }
}

/// The tiers of the highlighted entry.
pub open spec fn tiers_of(p: PickerView) -> Seq<Seq<char>> {
    match focus(p) {
        Some(entry) => entry.tiers,
        None => Seq::empty(),
    }
}

/// Whether a tier is the effective one.
pub open spec fn tier_is_current(p: PickerView, tier: Seq<char>) -> bool {
    p.current_effort == Some(lower_text(tier))
}

/// The first visible position of an id from `k` on, or their number where it is
/// hidden.
pub open spec fn position_of(p: PickerView, id: Seq<char>, k: int) -> nat
    decreases visible_of(p).len() - k,
{
    if k >= visible_of(p).len() || k < 0 {
        visible_of(p).len()
    } else if p.entries[visible_of(p)[k] as int].id == id {
        k as nat
    } else {
        position_of(p, id, k + 1)
    }
}

/// The picker with another filter. An entry that an earlier edit hid is selected
/// again once it matches; otherwise the highlighted entry stays selected while it
/// matches. Where it does not, the top is selected, and the first entry to be
/// hidden so is remembered.
pub open spec fn refiltered(p: PickerView, filter: Seq<char>) -> PickerView {
    let edited = PickerView { filter, ..p };
    let count = visible_of(edited).len();
    let back = match p.restore {
        Some(id) => position_of(edited, id, 0),
        None => count,
    };
    let kept = match focus(p) {
        Some(entry) => position_of(edited, entry.id, 0),
        None => count,
    };
    if back < count {
        PickerView { selected: back as usize, restore: None, ..edited }
    } else if kept < count {
        PickerView { selected: kept as usize, ..edited }
    } else {
        PickerView {
            selected: 0,
            restore: if p.restore is None && selected_id(p).len() > 0 {
                Some(selected_id(p))
            } else {
                p.restore
            },
            ..edited
        }
    }
}

/// The picker at the other level: into the tiers of a highlighted model that has
/// any, at the middle one; back out in any case.
pub open spec fn toggled(p: PickerView) -> PickerView {
    if !p.grouped {
        p
    } else if p.tier_mode {
        PickerView { tier_mode: false, ..p }
    } else if tiers_of(p).len() == 0 {
        p
    } else {
        PickerView { tier_mode: true, tier_selected: (tiers_of(p).len() / 2) as usize, ..p }
    }
}

proof fn visible_range(entries: Seq<PickView>, filter: Seq<char>, count: nat)
    requires
        count <= entries.len() <= usize::MAX,
    ensures
        visible_upto(entries, filter, count).len() <= count,
        forall|k: int|
            0 <= k < visible_upto(entries, filter, count).len() ==> (#[trigger] visible_upto(
                entries,
                filter,
                count,
            )[k]) < count,
    decreases count,
{
    if count > 0 {
        visible_range(entries, filter, (count - 1) as nat);
    }
}

impl Picker {
    pub fn new(title: &'static str, grouped: bool, entries: Vec<PickerEntry>) -> (picker: Picker)
        ensures
            picker@ == (PickerView {
                title: title@,
                grouped,
                entries: entries.deep_view(),
                filter: Seq::empty(),
                selected: 0,
                restore: None,
                previews: Seq::empty(),
                tier_mode: false,
                tier_selected: 0,
                current_effort: None,
            }),
    {
        let picker = Picker {
            title,
            grouped,
            entries,
            filter: String::new(),
            selected: 0,
            restore: None,
            previews: Vec::new(),
            tier_mode: false,
            tier_selected: 0,
            current_effort: None,
        };
        proof {
            assert(picker.previews.deep_view() =~= Seq::<SlotView>::empty());
        }
        picker
    }

    /// Marks the effective effort in the tier level.
    pub fn set_current_effort(&mut self, effort: &Option<String>)
        ensures
            final(self)@ == (PickerView {
                current_effort: match effort.deep_view() {
                    Some(label) => Some(lower_text(label)),
                    None => None,
                },
                ..old(self)@
            }),
    {
        self.current_effort = match effort {
            Some(label) => Some(strs::lowercased(label.as_str())),
            None => None,
        };
    }

    /// Indices of entries matching the active filter.
    pub fn visible(&self) -> (found: Vec<usize>)
        ensures
            found@ == visible_of(self@),
            forall|k: int| 0 <= k < found@.len() ==> (#[trigger] found@[k]) < self.entries@.len(),
    {
        let query = strs::to_lowercase(self.filter.as_str());
        let ghost all = self.entries.deep_view();
        let mut found: Vec<usize> = Vec::new();
        let mut i: usize = 0;
        proof {
            assert(found@ =~= visible_upto(all, self.filter@, 0));
        }
        while i < self.entries.len()
            invariant
                i <= self.entries.len(),
                all == self.entries.deep_view(),
                query@ == lowercase_of(self.filter@),
                found@ == visible_upto(all, self.filter@, i as nat),
            decreases self.entries.len() - i,
        {
            let entry = &self.entries[i];
            assert(all[i as int] == entry.deep_view());
            if self.filter.as_str().is_empty() {
                found.push(i);
                i += 1;
                continue ;
            }
            let primary = strs::to_lowercase(entry.primary.as_str());
            let secondary = strs::to_lowercase(entry.secondary.as_str());
            let group = strs::to_lowercase(entry.group.as_str());
            let id = strs::to_lowercase(entry.id.as_str());
            if lowered_matches(
                primary.as_str(),
                secondary.as_str(),
                group.as_str(),
                id.as_str(),
                query.as_str(),
            ) {
                found.push(i);
            }
            i += 1;
        }
        proof {
            visible_range(all, self.filter@, all.len());
        }
        found
    }

    /// The entry under the highlight.
    fn highlighted_entry(&self) -> (entry: Option<&PickerEntry>)
        ensures
            match entry {
                Some(entry) => focus(self@) == Some(entry.deep_view()),
                None => focus(self@) is None,
            },
    {
        let visible = self.visible();
        if visible.len() == 0 {
            return None;
        }
        let at = if self.selected < visible.len() {
            self.selected
        } else {
            visible.len() - 1
        };
        assert(visible@[at as int] < self.entries@.len());
        Some(&self.entries[visible[at]])
    }

    /// The highlighted entry's stable identity (empty when nothing matches).
    pub fn selected(&self) -> (id: &str)
        ensures
            id@ == selected_id(self@),
    {
        match self.highlighted_entry() {
            Some(entry) => entry.id.as_str(),
            None => {
                proof {
                    reveal_strlit("");
                    assert(""@ =~= Seq::<char>::empty());
                }
                ""
            },
        }
    }

    /// Whether this picker lists models (grouped rows, no previews).
    pub fn is_models(&self) -> (yes: bool)
        ensures
            yes == self@.grouped,
    {
        self.grouped
    }

    /// Whether the reasoning-tier level is currently shown.
    pub fn in_tier_mode(&self) -> (yes: bool)
        ensures
            yes == self@.tier_mode,
    {
        self.tier_mode
    }

    fn tier_count(&self) -> (count: usize)
        ensures
            count == tiers_of(self@).len(),
    {
        match self.highlighted_entry() {
            Some(entry) => {
                assert(entry.tiers.deep_view().len() == entry.tiers@.len());
                entry.tiers.len()
            },
            None => 0,
        }
    }

    /// `tab`: flips between the model list and the highlighted model's reasoning
    /// tiers. Returns whether the level changed.
    pub fn toggle_tier_mode(&mut self) -> (changed: bool)
        ensures
            final(self)@ == toggled(old(self)@),
            changed == (final(self)@.tier_mode != old(self)@.tier_mode),
    {
        if !self.grouped {
            return false;
        }
        if self.tier_mode {
            self.tier_mode = false;
            return true;
        }
        let count = self.tier_count();
        if count == 0 {
            return false;
        }
        self.tier_selected = count / 2;
        self.tier_mode = true;
        true
    }

    /// Whether the highlighted model declares reasoning tiers.
    pub fn highlighted_has_tiers(&self) -> (yes: bool)
        ensures
            yes == (tiers_of(self@).len() > 0),
    {
        self.tier_count() > 0
    }

    /// Whether the highlighted entry is the current session / model.
    pub fn selected_is_current(&self) -> (yes: bool)
        ensures
            yes == (focus(self@) is Some && focus(self@).unwrap().marked),
    {
        match self.highlighted_entry() {
            Some(entry) => entry.marked,
            None => false,
        }
    }

    /// Highlighted model id plus tier label while the tier level is open.
    pub fn selected_tier(&self) -> (choice: Option<(String, String)>)
        ensures
            match choice {
                Some((id, tier)) => {
                    &&& self@.tier_selected < tiers_of(self@).len()
                    &&& id@ == selected_id(self@)
                    &&& tier@ == tiers_of(self@)[self@.tier_selected as int]
                },
                None => self@.tier_selected >= tiers_of(self@).len(),
            },
    {
        match self.highlighted_entry() {
            Some(entry) => {
                assert(entry.tiers.deep_view().len() == entry.tiers@.len());
                if self.tier_selected < entry.tiers.len() {
                    Some((entry.id.clone(), entry.tiers[self.tier_selected].clone()))
                } else {
                    None
                }
            },
            None => None,
        }
    }

    fn is_current_tier(&self, tier: &str) -> (yes: bool)
        ensures
            yes == tier_is_current(self@, tier@),
    {
        match &self.current_effort {
            Some(effort) => strs::same(strs::lowercased(tier).as_str(), effort.as_str()),
            None => false,
        }
    }

    /// Whether the tier level's highlight sits on the effective effort.
    pub fn selected_tier_is_current(&self) -> (yes: bool)
        ensures
            yes == (self@.tier_selected < tiers_of(self@).len() && tier_is_current(
                self@,
                tiers_of(self@)[self@.tier_selected as int],
            )),
    {
        match self.selected_tier() {
            Some((_, tier)) => self.is_current_tier(tier.as_str()),
            None => false,
        }
    }

    /// Moves the tier-level highlight; returns whether it actually moved.
    pub fn move_tier(&mut self, up: bool) -> (moved: bool)
        ensures
            final(self)@ == (PickerView {
                tier_selected: stepped(old(self)@.tier_selected, tiers_of(old(self)@).len(), up),
                ..old(self)@
            }),
            moved == (final(self)@.tier_selected != old(self)@.tier_selected),
    {
        let count = self.tier_count();
        if count == 0 {
            return false;
        }
        let next: usize = if up {
            self.tier_selected.saturating_sub(1)
        } else if self.tier_selected < count - 1 {
            self.tier_selected + 1
        } else {
            count - 1
        };
        if next == self.tier_selected {
            return false;
        }
        self.tier_selected = next;
        true
    }

    /// Jumps the tier-level highlight to the first or last tier.
    pub fn jump_tier(&mut self, to_top: bool) -> (moved: bool)
        ensures
            final(self)@ == (PickerView {
                tier_selected: if tiers_of(old(self)@).len() == 0 {
                    old(self)@.tier_selected
                } else if to_top {
                    0
                } else {
                    (tiers_of(old(self)@).len() - 1) as usize
                },
                ..old(self)@
            }),
            moved == (final(self)@.tier_selected != old(self)@.tier_selected),
    {
        let count = self.tier_count();
        if count == 0 {
            return false;
        }
        let target: usize = if to_top {
            0
        } else {
            count - 1
        };
        if target == self.tier_selected {
            return false;
        }
        self.tier_selected = target;
        true
    }

    /// Moves the highlight; returns whether it actually moved.
    pub fn move_up(&mut self) -> (moved: bool)
        ensures
            moved == (old(self)@.selected > 0),
            final(self)@ == (PickerView {
                selected: if moved {
                    (old(self)@.selected - 1) as usize
                } else {
                    old(self)@.selected
                },
                ..old(self)@
            }),
    {
        if self.selected == 0 {
            return false;
        }
        self.selected -= 1;
        true
    }

    /// Moves the highlight; returns whether it actually moved.
    pub fn move_down(&mut self) -> (moved: bool)
        ensures
            moved == (old(self)@.selected + 1 < visible_of(old(self)@).len()),
            final(self)@ == (PickerView {
                selected: if moved {
                    (old(self)@.selected + 1) as usize
                } else {
                    old(self)@.selected
                },
                ..old(self)@
            }),
    {
        let count = self.visible().len();
        if count == 0 || self.selected >= count - 1 {
            return false;
        }
        self.selected += 1;
        true
    }

    /// Jumps the highlight to the first or last visible row.
    pub fn jump(&mut self, to_top: bool) -> (moved: bool)
        ensures
            final(self)@ == (PickerView {
                selected: if to_top {
                    0
                } else {
                    rest(visible_of(old(self)@).len(), 1) as usize
                },
                ..old(self)@
            }),
            moved == (final(self)@.selected != old(self)@.selected),
    {
        let target: usize = if to_top {
            0
        } else {
            self.visible().len().saturating_sub(1)
        };
        if self.selected == target {
            return false;
        }
        self.selected = target;
        true
    }

    /// Appends one filter character; keeps the current entry selected when it
    /// still matches, otherwise resets the highlight to the top.
    pub fn push_filter(&mut self, ch: char)
        ensures
            final(self)@ == refiltered(old(self)@, old(self)@.filter.push(ch)),
    {
        let mut filter = self.filter.clone();
        filter.push(ch);
        self.refilter(filter);
    }

    /// Removes the last filter character, with the same keep-selection rule.
    pub fn pop_filter(&mut self)
        ensures
            final(self)@ == (if old(self)@.filter.len() == 0 {
                old(self)@
            } else {
                refiltered(old(self)@, old(self)@.filter.drop_last())
            }),
    {
        let chars = strs::chars_of(self.filter.as_str());
        if chars.len() == 0 {
            return ;
        }
        let filter = strs::string_of(&chars, 0, chars.len() - 1);
        proof {
            assert(filter@ =~= old(self)@.filter.drop_last());
        }
        self.refilter(filter);
    }

    fn refilter(&mut self, filter: String)
        ensures
            final(self)@ == refiltered(old(self)@, filter@),
    {
        let held: Option<String> = match self.highlighted_entry() {
            Some(entry) => Some(entry.id.clone()),
            None => None,
        };
        self.filter = filter;
        let visible = self.visible();
        let count = visible.len();
        let back = match &self.restore {
            Some(id) => self.seat(&visible, id.as_str()),
            None => count,
        };
        if back < count {
            self.selected = back;
            self.restore = None;
            return ;
        }
        let kept = match &held {
            Some(id) => self.seat(&visible, id.as_str()),
            None => count,
        };
        if kept < count {
            self.selected = kept;
            return ;
        }
        self.selected = 0;
        if self.restore.is_none() {
            if let Some(id) = held {
                if !id.as_str().is_empty() {
                    self.restore = Some(id);
                }
            }
        }
    }

    /// The position of an id among the visible entries, or their number.
    fn seat(&self, visible: &Vec<usize>, id: &str) -> (at: usize)
        requires
            visible@ == visible_of(self@),
            forall|k: int|
                0 <= k < visible@.len() ==> (#[trigger] visible@[k]) < self.entries@.len(),
        ensures
            at == position_of(self@, id@, 0),
    {
        let ghost p = self@;
        let mut k: usize = 0;
        while k < visible.len()
            invariant
                k <= visible.len(),
                p == self@,
                visible@ == visible_of(p),
                forall|j: int|
                    0 <= j < visible@.len() ==> (#[trigger] visible@[j]) < self.entries@.len(),
                position_of(p, id@, 0) == position_of(p, id@, k as int),
            decreases visible.len() - k,
        {
            let index = visible[k];
            assert(p.entries[index as int].id == self.entries@[index as int].id@);
            if strs::same(self.entries[index].id.as_str(), id) {
                return k;
            }
            k += 1;
        }
        k
    }

    /// The slot of a preview.
    fn find_slot(&self, id: &str) -> (at: usize)
        ensures
            at == slot_of(self@.previews, id@),
            at <= self.previews@.len(),
    {
        let ghost slots = self.previews.deep_view();
        let mut i: usize = 0;
        proof {
            assert(slots.skip(0) =~= slots);
        }
        while i < self.previews.len()
            invariant
                i <= self.previews.len(),
                slots == self.previews.deep_view(),
                slot_of(slots, id@) == i + slot_of(slots.skip(i as int), id@),
            decreases self.previews.len() - i,
        {
            proof {
                assert(slots.skip(i as int)[0] == slots[i as int]);
                assert(slots.skip(i as int).skip(1) =~= slots.skip(i as int + 1));
            }
            if strs::same(self.previews[i].id.as_str(), id) {
                return i;
            }
            i += 1;
        }
        proof {
            assert(slots.skip(i as int) =~= Seq::<SlotView>::empty());
        }
        i
    }

    /// Claims the preview load for the current selection: yields the id the
    /// first time it is needed and marks it loading, so a preview is fetched at
    /// most once per session per overlay.
    pub fn claim_preview(&mut self) -> (id: Option<String>)
        ensures
            ({
                let wanted = selected_id(old(self)@);
                let claim = wanted.len() > 0 && preview_of(old(self)@.previews, wanted) is None;
                &&& id.deep_view() == (if claim {
                    Some(wanted)
                } else {
                    None
                })
                &&& final(self)@ == (if claim {
                    PickerView {
                        previews: with_preview(
                            old(self)@.previews,
                            wanted,
                            PreviewView::Loading,
                        ),
                        ..old(self)@
                    }
                } else {
                    old(self)@
                })
            }),
    {
        let id = self.selected().to_owned();
        if id.as_str().is_empty() || self.find_slot(id.as_str()) < self.previews.len() {
            return None;
        }
        self.set_preview(id.as_str(), Preview::Loading);
        Some(id)
    }

    /// Records a finished preview load.
    pub fn set_preview(&mut self, id: &str, preview: Preview)
        ensures
            final(self)@ == (PickerView {
                previews: with_preview(old(self)@.previews, id@, preview.deep_view()),
                ..old(self)@
            }),
    {
        let at = self.find_slot(id);
        let slot = PreviewSlot { id: id.to_owned(), preview };
        if at < self.previews.len() {
            self.previews.set(at, slot);
        } else {
            self.previews.push(slot);
        }
        proof {
            assert(self@.previews =~= with_preview(
                old(self)@.previews,
                id@,
                preview.deep_view(),
            ));
        }
    }
}

/// One step up or down within `count` rows.
pub open spec fn stepped(selected: usize, count: nat, up: bool) -> usize {
    if count == 0 {
        selected
    } else if up {
        if selected == 0 {
            0
        } else {
            (selected - 1) as usize
        }
    } else if selected + 1 < count {
        (selected + 1) as usize
    } else {
        (count - 1) as usize
    }
}

// ---------------------------------------------------------------------------
// Dialog geometry
// ---------------------------------------------------------------------------

/// The inner content width of a dialog of the given outer width.
pub open spec fn dialog_inner(outer_width: nat) -> nat {
    if rest(outer_width, 2) < 3 {
        3
    } else {
        rest(outer_width, 2)
    }
}

/// The rows inside the borders of a dialog of the given outer height.
pub open spec fn inner_rows(height: nat) -> nat {
    if rest(height, 2) < 1 {
        1
    } else {
        rest(height, 2)
    }
}

/// Whether there is room for blank rows around the body, beside `extra` rows.
pub open spec fn has_blanks(height: nat, extra: nat) -> bool {
    inner_rows(height) >= DIALOG_BLANKS + 2 + extra
}

/// The body rows a dialog has room for, beside blanks, footer and `extra` rows.
pub open spec fn body_capacity(height: nat, extra: nat) -> nat {
    let taken = (if has_blanks(height, extra) {
        DIALOG_BLANKS as nat
    } else {
        0
    }) + 1 + extra;
    if rest(inner_rows(height), taken) < 1 {
        1
    } else {
        rest(inner_rows(height), taken)
    }
}

fn inner_of(outer_width: usize) -> (inner: usize)
    ensures
        inner == dialog_inner(outer_width as nat),
{
    let inner = outer_width.saturating_sub(2);
    if inner < 3 {
        3
    } else {
        inner
    }
}

fn rows_of(height: usize) -> (rows: usize)
    ensures
        rows == inner_rows(height as nat),
{
    let rows = height.saturating_sub(2);
    if rows < 1 {
        1
    } else {
        rows
    }
}

fn blanks_around(height: usize, extra: usize) -> (yes: bool)
    requires
        extra <= 1,
    ensures
        yes == has_blanks(height as nat, extra as nat),
{
    rows_of(height) >= DIALOG_BLANKS + 2 + extra
}

fn capacity_of(height: usize, extra: usize) -> (capacity: usize)
    requires
        extra <= 1,
    ensures
        capacity == body_capacity(height as nat, extra as nat),
        1 <= capacity < usize::MAX,
{
    let rows = rows_of(height);
    let blanks: usize = if blanks_around(height, extra) {
        DIALOG_BLANKS
    } else {
        0
    };
    let capacity = rows.saturating_sub(blanks + 1 + extra);
    if capacity < 1 {
        1
    } else {
        capacity
    }
}

/// An entry fitted into the text zone: a primary cell of uniform width, then the
/// secondary text at the right edge.
pub open spec fn fitted_entry(
    marked: bool,
    primary: Seq<char>,
    secondary: Seq<char>,
    cell: nat,
    zone: nat,
) -> OverlayRowView {
    let room = rest(zone, 2 + cell);
    let meta = truncated(secondary, room);
    OverlayRowView::Entry {
        marked,
        primary: padded(truncated(primary, cell), cell),
        tail: repeated(' ', rest(room, cell_width(meta) as nat)) + meta,
    }
}

fn fit_tier_row(
    marked: bool,
    primary: &str,
    secondary: &str,
    primary_cell: usize,
    text_zone: usize,
) -> (row: OverlayRow)
    ensures
        row.deep_view() == fitted_entry(
            marked,
            primary@,
            secondary@,
            primary_cell as nat,
            text_zone as nat,
        ),
{
    let room = text_zone.saturating_sub(primary_cell.saturating_add(2));
    let meta = text::truncate(secondary, room);
    let mut tail = strs::repeat_char(' ', room.saturating_sub(text::width(meta.as_str())));
    tail.push_str(meta.as_str());
    OverlayRow::Entry {
        marked,
        primary: text::pad(text::truncate(primary, primary_cell).as_str(), primary_cell),
        tail,
    }
}

// ---------------------------------------------------------------------------
// The list level
// ---------------------------------------------------------------------------

/// A row before the panel width is known.
pub enum RawView {
    Group(Seq<char>),
    Entry { marked: bool, primary: Seq<char>, secondary: Seq<char> },
    Detail(Seq<char>),
}

/// A raw row with the position of the entry it belongs to.
pub struct PlacedView {
    pub row: RawView,
    pub position: nat,
}

/// A row before the panel width is known.
#[derive(Debug)]
pub enum RawRow {
    Group(String),
    Entry { marked: bool, primary: String, secondary: String },
    Detail(String),
}

/// A raw row with the position of the entry it belongs to.
#[derive(Debug)]
pub struct PlacedRow {
    pub row: RawRow,
    pub position: usize,
}

impl DeepView for PlacedRow {
    type V = PlacedView;

    open spec fn deep_view(&self) -> PlacedView {
        PlacedView {
            row: match self.row {
                RawRow::Group(value) => RawView::Group(value@),
                RawRow::Entry { marked, primary, secondary } => RawView::Entry {
                    marked,
                    primary: primary@,
                    secondary: secondary@,
                },
                RawRow::Detail(value) => RawView::Detail(value@),
            },
            position: self.position as nat,
        }
    }
}

/// The preview rows of the highlighted entry: at most four lines, or what there
/// is to say instead.
pub open spec fn detail_texts(p: PickerView) -> Seq<Seq<char>> {
    match preview_of(p.previews, selected_id(p)) {
        None | Some(PreviewView::Loading) => seq!["loading preview..."@],
        Some(PreviewView::Ready(lines)) => lines.take(
            if lines.len() < 4 {
                lines.len() as int
            } else {
                4
            },
        ),
        Some(PreviewView::Failed(message)) => seq!["preview unavailable: "@ + message],
    }
}

/// Whether the highlighted entry has a preview to show.
pub open spec fn has_pane(p: PickerView) -> bool {
    preview_of(p.previews, selected_id(p)) is Some
}

/// The preview rows as placed rows.
pub open spec fn detail_placed(p: PickerView, position: nat) -> Seq<PlacedView> {
    detail_texts(p).map_values(
        |line: Seq<char>| PlacedView { row: RawView::Detail("    "@ + line), position },
    )
}

/// The entry at a visible position.
pub open spec fn entry_at(p: PickerView, k: int) -> PickView {
    p.entries[visible_of(p)[k] as int]
}

/// The rows of the first `count` visible entries: a header where the group
/// changes, the entry, and the preview below the highlighted one.
pub open spec fn placed_rows(p: PickerView, count: nat) -> Seq<PlacedView>
    decreases count,
{
    if count == 0 {
        Seq::empty()
    } else {
        let k = count - 1;
        let before = placed_rows(p, k as nat);
        let entry = entry_at(p, k);
        let above = if k == 0 {
            Seq::empty()
        } else {
            entry_at(p, k - 1).group
        };
        let headed = if p.grouped && entry.group != above {
            before.push(
                PlacedView {
                    row: RawView::Group("  "@ + uppercase_of(entry.group)),
                    position: k as nat,
                },
            )
        } else {
            before
        };
        let listed = headed.push(
            PlacedView {
                row: RawView::Entry {
                    marked: entry.marked,
                    primary: entry.primary,
                    secondary: entry.secondary,
                },
                position: k as nat,
            },
        );
        if k == highlight(p) && has_pane(p) {
            listed + detail_placed(p, k as nat)
        } else {
            listed
        }
    }
}

/// The first row at or after `i` that belongs to a position, or 0.
pub open spec fn row_of_position(rows: Seq<PlacedView>, position: nat, i: int) -> nat
    decreases rows.len() - i,
{
    if i < 0 || i >= rows.len() {
        0
    } else if rows[i].position == position {
        i as nat
    } else {
        row_of_position(rows, position, i + 1)
    }
}

/// The first row at or after `i` that is the entry of a position, or 0.
pub open spec fn entry_row(rows: Seq<PlacedView>, position: nat, i: int) -> nat
    decreases rows.len() - i,
{
    if i < 0 || i >= rows.len() {
        0
    } else if rows[i].position == position && rows[i].row is Entry {
        i as nat
    } else {
        entry_row(rows, position, i + 1)
    }
}

/// The widest secondary text among the first visible entries.
pub open spec fn widest_secondary(p: PickerView, count: nat) -> usize
    decreases count,
{
    if count == 0 {
        0
    } else {
        let before = widest_secondary(p, (count - 1) as nat);
        let text = entry_at(p, count - 1).secondary;
        if text.len() > 0 && cell_width(text) > before {
            cell_width(text)
        } else {
            before
        }
    }
}

/// The widest primary text among the first visible entries.
pub open spec fn widest_primary(p: PickerView, count: nat) -> usize
    decreases count,
{
    if count == 0 {
        0
    } else {
        let before = widest_primary(p, (count - 1) as nat);
        let text = entry_at(p, count - 1).primary;
        if cell_width(text) > before {
            cell_width(text)
        } else {
            before
        }
    }
}

/// The width of the primary column: that of the widest entry, as far as the
/// secondary texts leave room.
pub open spec fn primary_cells(p: PickerView, zone: nat) -> nat {
    let count = visible_of(p).len();
    let meta = widest_secondary(p, count) as nat;
    let room = rest(zone, 2);
    let taken = 2 + (if meta < room {
        meta
    } else {
        room
    }) + 1;
    let budget = if rest(zone, taken) < 1 {
        1
    } else {
        rest(zone, taken)
    };
    if count == 0 || widest_primary(p, count) > budget {
        budget
    } else {
        widest_primary(p, count) as nat
    }
}

/// A raw row fitted into the text zone.
pub open spec fn fitted(row: RawView, cell: nat, zone: nat) -> OverlayRowView {
    match row {
        RawView::Group(value) => OverlayRowView::Group(truncated(value, zone)),
        RawView::Detail(value) => OverlayRowView::Detail(truncated(value, zone)),
        RawView::Entry { marked, primary, secondary } => fitted_entry(
            marked,
            primary,
            secondary,
            cell,
            zone,
        ),
    }
}

/// The first row of the window from `start` on that is no orphaned group header
/// above the rows of the highlighted entry.
pub open spec fn past_headers(rows: Seq<PlacedView>, start: int, selected: int) -> int
    decreases selected - start,
{
    if 0 <= start < rows.len() && rows[start].row is Group && start < selected {
        past_headers(rows, start + 1, selected)
    } else {
        start
    }
}

/// Where the window over the rows begins: high enough that the highlighted entry
/// and its preview fit.
pub open spec fn window_from(p: PickerView, capacity: nat) -> int {
    let rows = placed_rows(p, visible_of(p).len());
    let selected = entry_row(rows, highlight(p), 0);
    let below = if has_pane(p) {
        detail_texts(p).len()
    } else {
        0
    };
    past_headers(
        rows,
        rest(selected, rest(capacity, 1 + below)) as int,
        row_of_position(rows, highlight(p), 0) as int,
    )
}

/// The rows of the window.
pub open spec fn window_rows(
    p: PickerView,
    capacity: nat,
    cell: nat,
    zone: nat,
) -> Seq<OverlayLineView> {
    let rows = placed_rows(p, visible_of(p).len());
    let from = window_from(p, capacity);
    let count = if rows.len() - from < capacity {
        if from < rows.len() {
            (rows.len() - from) as nat
        } else {
            0
        }
    } else {
        capacity
    };
    Seq::new(
        count,
        |i: int|
            OverlayLineView {
                row: fitted(rows[from + i].row, cell, zone),
                selected: rows[from + i].row is Entry && rows[from + i].position == highlight(p),
            },
    )
}

/// The rows that show the filter: one, where there is a filter and room for it
/// beside an entry.
pub open spec fn filter_rows(p: PickerView, height: nat) -> nat {
    if p.filter.len() > 0 && inner_rows(height) >= 3 {
        1
    } else {
        0
    }
}

/// The body of the list level: the filter where it is shown, the window, a
/// placeholder where nothing matches.
pub open spec fn list_body(
    p: PickerView,
    echo: nat,
    capacity: nat,
    zone: nat,
) -> Seq<OverlayLineView> {
    let head = if echo == 0 {
        Seq::empty()
    } else {
        seq![
            OverlayLineView {
                row: OverlayRowView::Text(truncated("filter "@ + p.filter, zone)),
                selected: false,
            },
        ]
    };
    let filled = head + window_rows(p, capacity, primary_cells(p, zone), zone);
    if visible_of(p).len() == 0 {
        filled.push(
            OverlayLineView { row: OverlayRowView::Empty("no matches"@), selected: false },
        )
    } else {
        filled
    }
}

/// The title of the list level: name, highlighted position and count.
pub open spec fn list_title(p: PickerView) -> Seq<char> {
    let count = visible_of(p).len();
    p.title + " · "@ + decimal(
        if count > 0 {
            highlight(p) + 1
        } else {
            0
        },
    ) + "/"@ + decimal(count)
}

pub open spec fn list_footer(p: PickerView) -> Seq<char> {
    if p.grouped {
        "enter select · tab reasoning · ↑↓ move · type filter · esc close"@
    } else {
        "enter select · ↑↓ move · type filter · esc close"@
    }
}

/// The dialog of the list level.
pub open spec fn list_frame(p: PickerView, height: nat, outer_width: nat) -> FrameView {
    let inner = dialog_inner(outer_width);
    let zone = rest(inner, 2);
    let echo = filter_rows(p, height);
    let capacity = body_capacity(height, echo);
    FrameView {
        title: truncated(list_title(p), rest(inner, 5)),
        tone: OverlayTone::Normal,
        width: inner as usize,
        body: dialog_body(
            list_body(p, echo, capacity, zone),
            capacity + echo,
            has_blanks(height, echo),
        ),
        footer: truncated(list_footer(p), inner),
    }
}

// ---------------------------------------------------------------------------
// The tier level
// ---------------------------------------------------------------------------

/// The highlighted tier.
pub open spec fn tier_highlight(p: PickerView) -> nat {
    let count = tiers_of(p).len();
    if p.tier_selected < count {
        p.tier_selected as nat
    } else {
        rest(count, 1)
    }
}

/// The widest of the first tiers.
pub open spec fn widest_tier(tiers: Seq<Seq<char>>, count: nat) -> usize
    decreases count,
{
    if count == 0 {
        0
    } else {
        let before = widest_tier(tiers, (count - 1) as nat);
        if cell_width(tiers[count - 1]) > before {
            cell_width(tiers[count - 1])
        } else {
            before
        }
    }
}

/// The width of the tier column.
pub open spec fn tier_cells(tiers: Seq<Seq<char>>, zone: nat) -> nat {
    let widest = widest_tier(tiers, tiers.len()) as nat;
    let fit = if widest < rest(zone, 2) {
        widest
    } else {
        rest(zone, 2)
    };
    if fit < 1 {
        1
    } else {
        fit
    }
}

/// The rows of the tier level: a window that keeps the highlight visible, the
/// effective tier marked.
pub open spec fn tier_body(p: PickerView, capacity: nat, zone: nat) -> Seq<OverlayLineView> {
    let tiers = tiers_of(p);
    let from = rest(tier_highlight(p), rest(capacity, 1));
    let count = if rest(tiers.len(), from) < capacity {
        rest(tiers.len(), from)
    } else {
        capacity
    };
    Seq::new(
        count,
        |i: int|
            OverlayLineView {
                row: fitted_entry(
                    tier_is_current(p, tiers[from + i]),
                    tiers[from + i],
                    if tier_is_current(p, tiers[from + i]) {
                        "current"@
                    } else {
                        ""@
                    },
                    tier_cells(tiers, zone),
                    zone,
                ),
                selected: from + i == tier_highlight(p),
            },
    )
}

/// The dialog of the tier level.
pub open spec fn tier_frame(p: PickerView, height: nat, outer_width: nat) -> FrameView {
    let inner = dialog_inner(outer_width);
    let zone = rest(inner, 2);
    let capacity = body_capacity(height, 0);
    let title = match focus(p) {
        Some(entry) => "Reasoning · "@ + entry.primary,
        None => "Reasoning"@,
    };
    FrameView {
        title: truncated(title, rest(inner, 5)),
        tone: OverlayTone::Normal,
        width: inner as usize,
        body: dialog_body(tier_body(p, capacity, zone), capacity, has_blanks(height, 0)),
        footer: truncated("enter confirm · tab models · ↑↓ move · esc back"@, inner),
    }
}

/// The dialog of a picker.
pub open spec fn picker_frame(p: PickerView, height: nat, outer_width: nat) -> FrameView {
    if p.tier_mode {
        tier_frame(p, height, outer_width)
    } else {
        list_frame(p, height, outer_width)
    }
}

/// The first row of a position, or 0.
fn first_row(rows: &Vec<PlacedRow>, position: usize) -> (at: usize)
    ensures
        at == row_of_position(rows.deep_view(), position as nat, 0),
{
    let ghost all = rows.deep_view();
    let mut i: usize = 0;
    while i < rows.len()
        invariant
            i <= rows.len(),
            all == rows.deep_view(),
            row_of_position(all, position as nat, 0) == row_of_position(
                all,
                position as nat,
                i as int,
            ),
        decreases rows.len() - i,
    {
        assert(all[i as int] == rows@[i as int].deep_view());
        if rows[i].position == position {
            return i;
        }
        i += 1;
    }
    0
}

/// The row of the entry of a position, or 0.
fn first_entry_row(rows: &Vec<PlacedRow>, position: usize) -> (at: usize)
    ensures
        at == entry_row(rows.deep_view(), position as nat, 0),
{
    let ghost all = rows.deep_view();
    let mut i: usize = 0;
    while i < rows.len()
        invariant
            i <= rows.len(),
            all == rows.deep_view(),
            entry_row(all, position as nat, 0) == entry_row(all, position as nat, i as int),
        decreases rows.len() - i,
    {
        assert(all[i as int] == rows@[i as int].deep_view());
        if rows[i].position == position && matches!(rows[i].row, RawRow::Entry { .. }) {
            return i;
        }
        i += 1;
    }
    0
}

impl Picker {
    fn detail_rows(&self) -> (rows: Vec<String>)
        ensures
            rows.deep_view() == detail_texts(self@),
    {
        let id = self.selected();
        let at = self.find_slot(id);
        let mut rows: Vec<String> = Vec::new();
        if at >= self.previews.len() {
            rows.push("loading preview...".to_owned());
            proof {
                assert(rows.deep_view() =~= seq!["loading preview..."@]);
            }
            return rows;
        }
        assert(self@.previews[at as int] == self.previews@[at as int].deep_view());
        match &self.previews[at].preview {
            Preview::Loading => {
                rows.push("loading preview...".to_owned());
                proof {
                    assert(rows.deep_view() =~= seq!["loading preview..."@]);
                }
            },
            Preview::Ready(lines) => {
                let mut i: usize = 0;
                while i < lines.len() && i < 4
                    invariant
                        i <= lines.len(),
                        i <= 4,
                        rows.len() == i,
                        forall|k: int| 0 <= k < i ==> (#[trigger] rows@[k])@ == lines@[k]@,
                    decreases 4 - i,
                {
                    rows.push(lines[i].clone());
                    i += 1;
                }
                proof {
                    let count = if lines@.len() < 4 {
                        lines@.len() as int
                    } else {
                        4
                    };
                    assert(rows.deep_view() =~= lines.deep_view().take(count));
                }
            },
            Preview::Failed(message) => {
                rows.push(strs::cat("preview unavailable: ", message.as_str()));
                proof {
                    assert(rows.deep_view() =~= seq!["preview unavailable: "@ + message@]);
                }
            },
        }
        rows
    }

    fn has_preview_pane(&self) -> (yes: bool)
        ensures
            yes == has_pane(self@),
    {
        self.find_slot(self.selected()) < self.previews.len()
    }

    /// All rows of the list level, before fitting.
    fn sequence(&self, visible: &Vec<usize>, highlighted: usize) -> (rows: Vec<PlacedRow>)
        requires
            visible@ == visible_of(self@),
            forall|k: int|
                0 <= k < visible@.len() ==> (#[trigger] visible@[k]) < self.entries@.len(),
            highlighted == highlight(self@),
        ensures
            rows.deep_view() == placed_rows(self@, visible@.len()),
    {
        let ghost p = self@;
        let mut rows: Vec<PlacedRow> = Vec::new();
        let mut k: usize = 0;
        proof {
            assert(rows.deep_view() =~= Seq::<PlacedView>::empty());
        }
        while k < visible.len()
            invariant
                k <= visible.len(),
                p == self@,
                visible@ == visible_of(p),
                forall|j: int|
                    0 <= j < visible@.len() ==> (#[trigger] visible@[j]) < self.entries@.len(),
                highlighted == highlight(p),
                rows.deep_view() == placed_rows(p, k as nat),
            decreases visible.len() - k,
        {
            let index = visible[k];
            let entry = &self.entries[index];
            assert(entry.deep_view() == entry_at(p, k as int));
            let ghost before = rows.deep_view();
            if self.grouped {
                let same = if k == 0 {
                    entry.group.as_str().is_empty()
                } else {
                    let above = visible[k - 1];
                    assert(self.entries@[above as int].deep_view() == entry_at(p, k - 1));
                    strs::same(entry.group.as_str(), self.entries[above].group.as_str())
                };
                proof {
                    if k == 0 && same {
                        assert(entry.group@ =~= Seq::<char>::empty());
                    }
                }
                if !same {
                    let header = PlacedRow {
                        row: RawRow::Group(
                            strs::cat("  ", strs::to_uppercase(entry.group.as_str()).as_str()),
                        ),
                        position: k,
                    };
                    rows.push(header);
                    proof {
                        assert(rows.deep_view() =~= before.push(header.deep_view()));
                    }
                }
            }
            let ghost headed = rows.deep_view();
            let listed = PlacedRow {
                row: RawRow::Entry {
                    marked: entry.marked,
                    primary: entry.primary.clone(),
                    secondary: entry.secondary.clone(),
                },
                position: k,
            };
            rows.push(listed);
            let ghost base = rows.deep_view();
            proof {
                assert(base =~= headed.push(listed.deep_view()));
            }
            if k == highlighted && self.has_preview_pane() {
                let details = self.detail_rows();
                let ghost texts = details.deep_view();
                let ghost added = detail_placed(p, k as nat);
                let mut i: usize = 0;
                proof {
                    assert(base + added.take(0) =~= base);
                }
                while i < details.len()
                    invariant
                        i <= details.len(),
                        texts == details.deep_view(),
                        texts == detail_texts(p),
                        added == detail_placed(p, k as nat),
                        rows.deep_view() == base + added.take(i as int),
                    decreases details.len() - i,
                {
                    let ghost earlier = rows.deep_view();
                    let row = PlacedRow {
                        row: RawRow::Detail(strs::cat("    ", details[i].as_str())),
                        position: k,
                    };
                    rows.push(row);
                    proof {
                        assert(texts[i as int] == details@[i as int]@);
                        assert(row.deep_view() == added[i as int]);
                        assert(rows.deep_view() =~= earlier.push(row.deep_view()));
                        assert(base + added.take(i as int + 1) =~= earlier.push(added[i as int]));
                    }
                    i += 1;
                }
                proof {
                    assert(added.take(i as int) =~= added);
                }
            }
            k += 1;
        }
        rows
    }

    /// The width of the primary column.
    fn primary_cell(&self, visible: &Vec<usize>, zone: usize) -> (cell: usize)
        requires
            visible@ == visible_of(self@),
            forall|k: int|
                0 <= k < visible@.len() ==> (#[trigger] visible@[k]) < self.entries@.len(),
        ensures
            cell == primary_cells(self@, zone as nat),
    {
        let ghost p = self@;
        let mut meta: usize = 0;
        let mut widest: usize = 0;
        let mut k: usize = 0;
        while k < visible.len()
            invariant
                k <= visible.len(),
                p == self@,
                visible@ == visible_of(p),
                forall|j: int|
                    0 <= j < visible@.len() ==> (#[trigger] visible@[j]) < self.entries@.len(),
                meta == widest_secondary(p, k as nat),
                widest == widest_primary(p, k as nat),
            decreases visible.len() - k,
        {
            let entry = &self.entries[visible[k]];
            assert(entry.deep_view() == entry_at(p, k as int));
            let secondary = text::width(entry.secondary.as_str());
            if !entry.secondary.as_str().is_empty() && secondary > meta {
                meta = secondary;
            }
            let primary = text::width(entry.primary.as_str());
            if primary > widest {
                widest = primary;
            }
            k += 1;
        }
        let room = zone.saturating_sub(2);
        let taken: usize = if meta < room {
            meta
        } else {
            room
        };
        let mut budget = zone.saturating_sub(taken.saturating_add(3));
        if budget < 1 {
            budget = 1;
        }
        if visible.len() == 0 || widest > budget {
            budget
        } else {
            widest
        }
    }

    /// The window over the rows of the list level, fitted.
    fn window(
        &self,
        rows: &Vec<PlacedRow>,
        highlighted: usize,
        capacity: usize,
        cell: usize,
        zone: usize,
    ) -> (lines: Vec<OverlayLine>)
        requires
            rows.deep_view() == placed_rows(self@, visible_of(self@).len()),
            highlighted == highlight(self@),
        ensures
            lines.deep_view() == window_rows(
                self@,
                capacity as nat,
                cell as nat,
                zone as nat,
            ),
    {
        let ghost p = self@;
        let ghost all = rows.deep_view();
        let first = first_row(rows, highlighted);
        let selected = first_entry_row(rows, highlighted);
        let below: usize = if self.has_preview_pane() {
            let details = self.detail_rows();
            assert(details.deep_view().len() == details@.len());
            details.len()
        } else {
            0
        };
        let keep = capacity.saturating_sub(below.saturating_add(1));
        let mut start = selected.saturating_sub(keep);
        let ghost top = start as int;
        while start < rows.len() && start < first && matches!(rows[start].row, RawRow::Group(_))
            invariant
                all == rows.deep_view(),
                top <= start,
                past_headers(all, top, first as int) == past_headers(
                    all,
                    start as int,
                    first as int,
                ),
            decreases first - start,
        {
            assert(all[start as int] == rows@[start as int].deep_view());
            start += 1;
        }
        proof {
            if start < rows.len() {
                assert(all[start as int] == rows@[start as int].deep_view());
            }
            assert(start == window_from(p, capacity as nat));
        }
        let ghost expected = window_rows(p, capacity as nat, cell as nat, zone as nat);
        let mut lines: Vec<OverlayLine> = Vec::new();
        let mut k: usize = 0;
        while k < capacity && start < rows.len() && k < rows.len() - start
            invariant
                k <= capacity,
                start < rows.len() ==> k <= rows.len() - start,
                start >= rows.len() ==> k == 0,
                all == rows.deep_view(),
                all == placed_rows(p, visible_of(p).len()),
                highlighted == highlight(p),
                start == window_from(p, capacity as nat),
                expected == window_rows(p, capacity as nat, cell as nat, zone as nat),
                lines.len() == k,
                forall|j: int| 0 <= j < k ==> (#[trigger] lines@[j]).deep_view() == expected[j],
            decreases capacity - k,
        {
            let placed = &rows[start + k];
            assert(all[start + k] == placed.deep_view());
            let row = match &placed.row {
                RawRow::Group(value) => OverlayRow::Group(text::truncate(value.as_str(), zone)),
                RawRow::Detail(value) => OverlayRow::Detail(text::truncate(value.as_str(), zone)),
                RawRow::Entry { marked, primary, secondary } => fit_tier_row(
                    *marked,
                    primary.as_str(),
                    secondary.as_str(),
                    cell,
                    zone,
                ),
            };
            let is_entry = matches!(placed.row, RawRow::Entry { .. });
            lines.push(
                OverlayLine { row, selected: is_entry && placed.position == highlighted },
            );
            k += 1;
        }
        proof {
            assert(lines.deep_view() =~= expected);
        }
        lines
    }

    /// Projects the overlay onto a dialog of 88 columns.
    pub fn frame(&self, height: usize) -> (frame: OverlayFrame)
        ensures
            frame.deep_view() == picker_frame(self@, height as nat, 88),
    {
        self.frame_for(height, 88)
    }

    /// The body of the list level.
    fn list_lines(
        &self,
        visible: &Vec<usize>,
        highlighted: usize,
        echo: usize,
        capacity: usize,
        zone: usize,
    ) -> (body: Vec<OverlayLine>)
        requires
            visible@ == visible_of(self@),
            forall|k: int|
                0 <= k < visible@.len() ==> (#[trigger] visible@[k]) < self.entries@.len(),
            highlighted == highlight(self@),
        ensures
            body.deep_view() == list_body(self@, echo as nat, capacity as nat, zone as nat),
    {
        let rows = self.sequence(visible, highlighted);
        let cell = self.primary_cell(visible, zone);
        let mut body: Vec<OverlayLine> = Vec::new();
        if echo > 0 {
            let filter = strs::cat("filter ", self.filter.as_str());
            body.push(
                OverlayLine {
                    row: OverlayRow::Text(text::truncate(filter.as_str(), zone)),
                    selected: false,
                },
            );
        }
        let ghost head = body.deep_view();
        proof {
            if echo > 0 {
                assert(head =~= seq![
                    OverlayLineView {
                        row: OverlayRowView::Text(
                            truncated("filter "@ + self.filter@, zone as nat),
                        ),
                        selected: false,
                    },
                ]);
            } else {
                assert(head =~= Seq::<OverlayLineView>::empty());
            }
        }
        let mut shown = self.window(&rows, highlighted, capacity, cell, zone);
        let ghost windowed = shown.deep_view();
        body.append(&mut shown);
        let ghost listed = body.deep_view();
        proof {
            assert(listed =~= head + windowed);
        }
        if visible.len() == 0 {
            let empty = OverlayLine {
                row: OverlayRow::Empty("no matches".to_owned()),
                selected: false,
            };
            body.push(empty);
            proof {
                assert(body.deep_view() =~= listed.push(empty.deep_view()));
            }
        }
        body
    }

    /// The title of the list level.
    fn list_heading(&self, highlighted: usize, total: usize) -> (title: String)
        requires
            total == visible_of(self@).len(),
            highlighted == highlight(self@),
        ensures
            title@ == list_title(self@),
    {
        let mut title = strs::cat(self.title, " · ");
        let place: u64 = if total > 0 {
            highlighted as u64 + 1
        } else {
            0
        };
        title.push_str(strs::number(place).as_str());
        title.push_str("/");
        title.push_str(strs::number(total as u64).as_str());
        title
    }

    /// Projects the overlay onto a dialog of fixed outer size. Rows truncate
    /// into the constant text zone and short lists pad with blanks.
    pub fn frame_for(&self, height: usize, outer_width: usize) -> (frame: OverlayFrame)
        ensures
            frame.deep_view() == picker_frame(self@, height as nat, outer_width as nat),
    {
        if self.tier_mode {
            return self.tier_frame_for(height, outer_width);
        }
        let visible = self.visible();
        let total = visible.len();
        let highlighted: usize = if self.selected < total {
            self.selected
        } else {
            total.saturating_sub(1)
        };
        let inner = inner_of(outer_width);
        let zone: usize = inner - 2;
        let echo: usize = if !self.filter.as_str().is_empty() && rows_of(height) >= 3 {
            1
        } else {
            0
        };
        let capacity = capacity_of(height, echo);
        let body = self.list_lines(&visible, highlighted, echo, capacity, zone);
        let title = self.list_heading(highlighted, total);
        let footer = if self.grouped {
            "enter select · tab reasoning · ↑↓ move · type filter · esc close"
        } else {
            "enter select · ↑↓ move · type filter · esc close"
        };
        OverlayFrame {
            title: text::truncate(title.as_str(), inner.saturating_sub(5)),
            tone: OverlayTone::Normal,
            width: inner,
            body: finish_body(body, capacity + echo, blanks_around(height, echo)),
            footer: text::truncate(footer, inner),
        }
    }

    /// The reasoning-tier level projection: one row per declared tier of the
    /// highlighted model, with the effective effort marked.
    fn tier_frame_for(&self, height: usize, outer_width: usize) -> (frame: OverlayFrame)
        ensures
            frame.deep_view() == tier_frame(self@, height as nat, outer_width as nat),
    {
        let ghost p = self@;
        let inner = inner_of(outer_width);
        let zone: usize = inner - 2;
        let capacity = capacity_of(height, 0);
        let empty: Vec<String> = Vec::new();
        let focused = self.highlighted_entry();
        let title = match focused {
            Some(entry) => strs::cat("Reasoning · ", entry.primary.as_str()),
            None => "Reasoning".to_owned(),
        };
        let tiers = match focused {
            Some(entry) => &entry.tiers,
            None => &empty,
        };
        let ghost all = tiers.deep_view();
        proof {
            assert(all =~= tiers_of(p));
        }
        let mut widest: usize = 0;
        let mut i: usize = 0;
        while i < tiers.len()
            invariant
                i <= tiers.len(),
                all == tiers.deep_view(),
                widest == widest_tier(all, i as nat),
            decreases tiers.len() - i,
        {
            let cells = text::width(tiers[i].as_str());
            assert(all[i as int] == tiers@[i as int]@);
            if cells > widest {
                widest = cells;
            }
            i += 1;
        }
        let room = zone.saturating_sub(2);
        let mut cell: usize = if widest < room {
            widest
        } else {
            room
        };
        if cell < 1 {
            cell = 1;
        }
        let highlighted: usize = if self.tier_selected < tiers.len() {
            self.tier_selected
        } else {
            tiers.len().saturating_sub(1)
        };
        let start = highlighted.saturating_sub(capacity.saturating_sub(1));
        let ghost expected = tier_body(p, capacity as nat, zone as nat);
        let mut body: Vec<OverlayLine> = Vec::new();
        let mut k: usize = 0;
        while k < capacity && start < tiers.len() && k < tiers.len() - start
            invariant
                k <= capacity,
                start < tiers.len() ==> k <= tiers.len() - start,
                start >= tiers.len() ==> k == 0,
                p == self@,
                all == tiers.deep_view(),
                all == tiers_of(p),
                highlighted == tier_highlight(p),
                start == rest(tier_highlight(p), rest(capacity as nat, 1)),
                cell == tier_cells(all, zone as nat),
                expected == tier_body(p, capacity as nat, zone as nat),
                body.len() == k,
                forall|j: int| 0 <= j < k ==> (#[trigger] body@[j]).deep_view() == expected[j],
            decreases capacity - k,
        {
            let tier = tiers[start + k].as_str();
            assert(all[start + k] == tier@);
            let marked = self.is_current_tier(tier);
            let meta = if marked {
                "current"
            } else {
                ""
            };
            body.push(
                OverlayLine {
                    row: fit_tier_row(marked, tier, meta, cell, zone),
                    selected: start + k == highlighted,
                },
            );
            k += 1;
        }
        proof {
            assert(body.deep_view() =~= expected);
        }
        OverlayFrame {
            title: text::truncate(title.as_str(), inner.saturating_sub(5)),
            tone: OverlayTone::Normal,
            width: inner,
            body: finish_body(body, capacity, blanks_around(height, 0)),
            footer: text::truncate("enter confirm · tab models · ↑↓ move · esc back", inner),
        }
    }
}

// ---------------------------------------------------------------------------
// The approval prompt
// ---------------------------------------------------------------------------

/// The approval overlay: one confirmation request at a time, with a binary
/// answer.
#[derive(Clone, Debug, PartialEq, Eq)]
pub struct ConfirmPrompt {
    pub id: u64,
    pub title: String,
    pub body: String,
}

/// A [`ConfirmPrompt`] as a mathematical value.
pub struct PromptView {
    pub id: u64,
    pub title: Seq<char>,
    pub body: Seq<char>,
}

impl DeepView for ConfirmPrompt {
    type V = PromptView;

    open spec fn deep_view(&self) -> PromptView {
        PromptView { id: self.id, title: self.title@, body: self.body@ }
    }
}

/// The widest of the first lines.
pub open spec fn widest_line(lines: Seq<Seq<char>>, count: nat) -> usize
    decreases count,
{
    if count == 0 {
        0
    } else {
        let before = widest_line(lines, (count - 1) as nat);
        if cell_width(lines[count - 1]) > before {
            cell_width(lines[count - 1])
        } else {
            before
        }
    }
}

/// The question's title, then the lines of its body.
pub open spec fn prompt_lines(prompt: PromptView) -> Seq<Seq<char>> {
    seq![prompt.title] + lines_of(prompt.body)
}

/// The inner width of the approval panel: what its widest line needs with the
/// padding, within the given outer width.
pub open spec fn prompt_inner(prompt: PromptView, max_width: nat) -> nat {
    let lines = prompt_lines(prompt).push("Approval required"@).push("y allow · n / esc deny"@);
    let natural = widest_line(lines, lines.len()) as nat + 2;
    if natural < 3 {
        3
    } else if natural > rest(max_width, 2) {
        rest(max_width, 2)
    } else {
        natural
    }
}

/// The panel of an approval prompt.
pub open spec fn prompt_frame(prompt: PromptView, height: nat, max_width: nat) -> FrameView {
    let inner = prompt_inner(prompt, max_width);
    let capacity = body_capacity(height, 0);
    let lines = prompt_lines(prompt);
    let count = if lines.len() < capacity {
        lines.len()
    } else {
        capacity
    };
    let body = Seq::new(
        count,
        |i: int|
            OverlayLineView {
                row: OverlayRowView::Text(truncated(lines[i], rest(inner, 2))),
                selected: false,
            },
    );
    FrameView {
        title: truncated("Approval required"@, rest(inner, 5)),
        tone: OverlayTone::Warning,
        width: inner as usize,
        body: dialog_body(body, 0, has_blanks(height, 0)),
        footer: truncated("y allow · n / esc deny"@, inner),
    }
}

impl ConfirmPrompt {
    pub fn new(id: u64, title: &str, body: &str) -> (prompt: ConfirmPrompt)
        ensures
            prompt.deep_view() == (PromptView { id, title: title@, body: body@ }),
    {
        ConfirmPrompt { id, title: title.to_owned(), body: body.to_owned() }
    }

    /// The question's title, echoed with the decision.
    pub fn title(&self) -> (title: &str)
        ensures
            title@ == self.title@,
    {
        self.title.as_str()
    }

    /// Projects the approval into a panel of at most 80 columns.
    pub fn frame(&self, height: usize) -> (frame: OverlayFrame)
        ensures
            frame.deep_view() == prompt_frame(self.deep_view(), height as nat, 80),
    {
        self.frame_for(height, 80)
    }

    /// Projects the approval into a panel of at most `height` outer rows and
    /// `max_width` outer columns, borders included.
    pub fn frame_for(&self, height: usize, max_width: usize) -> (frame: OverlayFrame)
        requires
            max_width >= 5,
        ensures
            frame.deep_view() == prompt_frame(
                self.deep_view(),
                height as nat,
                max_width as nat,
            ),
    {
        let ghost prompt = self.deep_view();
        let mut content = strs::lines(self.body.as_str());
        let ghost body_lines = content.deep_view();
        content.insert(0, self.title.clone());
        let ghost lines = prompt_lines(prompt);
        proof {
            assert(content.deep_view() =~= lines);
        }
        let ghost measured = lines.push("Approval required"@).push("y allow · n / esc deny"@);
        let mut natural: usize = 0;
        let mut i: usize = 0;
        while i < content.len()
            invariant
                i <= content.len(),
                content.deep_view() == lines,
                measured == lines.push("Approval required"@).push("y allow · n / esc deny"@),
                natural == widest_line(measured, i as nat),
            decreases content.len() - i,
        {
            let cells = text::width(content[i].as_str());
            assert(measured[i as int] == content@[i as int]@);
            if cells > natural {
                natural = cells;
            }
            i += 1;
        }
        let border_title = text::width("Approval required");
        if border_title > natural {
            natural = border_title;
        }
        let hints = text::width("y allow · n / esc deny");
        if hints > natural {
            natural = hints;
        }
        proof {
            let n = lines.len();
            assert(measured[n as int] == "Approval required"@);
            assert(measured[n as int + 1] == "y allow · n / esc deny"@);
            assert(measured.len() == n + 2);
            assert(natural == widest_line(measured, n + 2)) by {
                reveal_with_fuel(widest_line, 3);
            }
        }
        let limit: usize = max_width - 2;
        let wanted = natural.saturating_add(2);
        let inner: usize = if wanted < 3 {
            3
        } else if wanted > limit {
            limit
        } else {
            wanted
        };
        let zone: usize = inner - 2;
        let capacity = capacity_of(height, 0);
        let ghost expected = Seq::new(
            if lines.len() < capacity {
                lines.len()
            } else {
                capacity as nat
            },
            |i: int|
                OverlayLineView {
                    row: OverlayRowView::Text(truncated(lines[i], rest(inner as nat, 2))),
                    selected: false,
                },
        );
        let mut body: Vec<OverlayLine> = Vec::new();
        let mut k: usize = 0;
        while k < content.len() && k < capacity
            invariant
                k <= content.len(),
                k <= capacity,
                content.deep_view() == lines,
                zone == rest(inner as nat, 2),
                body.len() == k,
                forall|j: int|
                    0 <= j < k ==> (#[trigger] body@[j]).deep_view() == (OverlayLineView {
                        row: OverlayRowView::Text(truncated(lines[j], zone as nat)),
                        selected: false,
                    }),
            decreases content.len() - k,
        {
            assert(lines[k as int] == content@[k as int]@);
            body.push(
                OverlayLine {
                    row: OverlayRow::Text(text::truncate(content[k].as_str(), zone)),
                    selected: false,
                },
            );
            k += 1;
        }
        proof {
            assert(body.deep_view() =~= expected);
        }
        OverlayFrame {
            title: text::truncate("Approval required", inner.saturating_sub(5)),
            tone: OverlayTone::Warning,
            width: inner,
            body: finish_body(body, 0, blanks_around(height, 0)),
            footer: text::truncate("y allow · n / esc deny", inner),
        }
    }
}

// ---------------------------------------------------------------------------
// Laws
// ---------------------------------------------------------------------------

/// The dialog never changes size with its content: its width depends on the
/// outer width alone, and its height on the outer height alone.
pub proof fn dialog_size_is_fixed(p: PickerView, height: nat, outer_width: nat)
    ensures
        picker_frame(p, height, outer_width).width == dialog_inner(outer_width) as usize,
        picker_frame(p, height, outer_width).body.len() == (if height < 4 {
            1
        } else {
            height - 3
        }),
{
    let zone = rest(dialog_inner(outer_width), 2);
    if p.tier_mode {
        let capacity = body_capacity(height, 0);
        assert(tier_body(p, capacity, zone).len() <= capacity);
    } else {
        let echo = filter_rows(p, height);
        let capacity = body_capacity(height, echo);
        if visible_of(p).len() == 0 {
            assert(placed_rows(p, 0).len() == 0);
        }
        assert(list_body(p, echo, capacity, zone).len() <= capacity + echo);
    }
}

/// What the rows of the first visible entries are made of: each belongs to one
/// of them, and each of them has exactly one entry row, which shows it.
proof fn entries_are_placed_once(p: PickerView, count: nat)
    ensures
        forall|i: int|
            0 <= i < placed_rows(p, count).len() ==> (#[trigger] placed_rows(p, count)[i]).position
                < count,
        forall|i: int|
            0 <= i < placed_rows(p, count).len() && (#[trigger] placed_rows(
                p,
                count,
            )[i]).row is Entry ==> placed_rows(p, count)[i].row == raw_entry(
                entry_at(p, placed_rows(p, count)[i].position as int),
            ),
        forall|i: int, j: int|
            0 <= i < placed_rows(p, count).len() && 0 <= j < placed_rows(p, count).len() && (
            #[trigger] placed_rows(p, count)[i]).row is Entry && (#[trigger] placed_rows(
                p,
                count,
            )[j]).row is Entry && placed_rows(p, count)[i].position == placed_rows(
                p,
                count,
            )[j].position ==> i == j,
    decreases count,
{
    if count > 0 {
        entries_are_placed_once(p, (count - 1) as nat);
    }
}

proof fn entry_is_placed(p: PickerView, count: nat, position: nat) -> (at: int)
    requires
        position < count,
    ensures
        0 <= at < placed_rows(p, count).len(),
        placed_rows(p, count)[at].row is Entry,
        placed_rows(p, count)[at].position == position,
    decreases count,
{
    let k = (count - 1) as nat;
    let rows = placed_rows(p, count);
    if position < k {
        let at = entry_is_placed(p, k, position);
        assert(rows[at] == placed_rows(p, k)[at]);
        at
    } else {
        let before = placed_rows(p, k).len() as int;
        if rows[before].row is Entry {
            before
        } else {
            before + 1
        }
    }
}

/// An entry as a row before fitting.
pub open spec fn raw_entry(entry: PickView) -> RawView {
    RawView::Entry {
        marked: entry.marked,
        primary: entry.primary,
        secondary: entry.secondary,
    }
}

proof fn entry_row_is_found(rows: Seq<PlacedView>, position: nat, i: int, at: int)
    requires
        0 <= i <= at < rows.len(),
        rows[at].row is Entry,
        rows[at].position == position,
    ensures
        i <= entry_row(rows, position, i) <= at,
        rows[entry_row(rows, position, i) as int].row is Entry,
        rows[entry_row(rows, position, i) as int].position == position,
        i <= row_of_position(rows, position, i) <= entry_row(rows, position, i),
    decreases at - i,
{
    if i < at {
        if !(rows[i].row is Entry && rows[i].position == position) {
            entry_row_is_found(rows, position, i + 1, at);
        }
    }
}

proof fn headers_are_passed_up_to(rows: Seq<PlacedView>, start: int, limit: int)
    ensures
        start <= past_headers(rows, start, limit),
        past_headers(rows, start, limit) <= limit || past_headers(rows, start, limit) == start,
    decreases limit - start,
{
    if 0 <= start < rows.len() && rows[start].row is Group && start < limit {
        headers_are_passed_up_to(rows, start + 1, limit);
    }
}

/// Whether a row is selected and no other is.
pub open spec fn alone_selected(body: Seq<OverlayLineView>, at: int) -> bool {
    &&& 0 <= at < body.len()
    &&& forall|i: int| 0 <= i < body.len() ==> (#[trigger] body[i]).selected == (i == at)
}

proof fn window_shows_the_highlight(p: PickerView, capacity: nat, cell: nat, zone: nat) -> (at: int)
    requires
        visible_of(p).len() > 0,
        capacity >= 1,
    ensures
        alone_selected(window_rows(p, capacity, cell, zone), at),
        window_rows(p, capacity, cell, zone)[at].row == fitted(
            raw_entry(entry_at(p, highlight(p) as int)),
            cell,
            zone,
        ),
{
    let count = visible_of(p).len();
    let rows = placed_rows(p, count);
    let position = highlight(p);
    let placed = entry_is_placed(p, count, position);
    entries_are_placed_once(p, count);
    entry_row_is_found(rows, position, 0, placed);
    let selected = entry_row(rows, position, 0) as int;
    assert(selected == placed);
    let below = if has_pane(p) {
        detail_texts(p).len()
    } else {
        0
    };
    let start = rest(selected as nat, rest(capacity, 1 + below)) as int;
    let from = window_from(p, capacity);
    headers_are_passed_up_to(rows, start, row_of_position(rows, position, 0) as int);
    assert(start <= from <= selected);
    let lines = window_rows(p, capacity, cell, zone);
    assert(lines[selected - from].selected);
    assert forall|i: int| 0 <= i < lines.len() implies (#[trigger] lines[i]).selected == (i
        == selected - from) by {
        assert(lines[i].selected == (rows[from + i].row is Entry && rows[from + i].position
            == position));
    }
    selected - from
}

/// The highlighted entry is in view: exactly one body row is selected, and it is
/// the row of the highlighted entry.
pub proof fn highlight_is_in_view(p: PickerView, height: nat, outer_width: nat)
    requires
        !p.tier_mode,
        visible_of(p).len() > 0,
    ensures
        exists|at: int|
            #![trigger alone_selected(picker_frame(p, height, outer_width).body, at)]
            {
                let zone = rest(dialog_inner(outer_width), 2);
                &&& alone_selected(picker_frame(p, height, outer_width).body, at)
                &&& focus(p) is Some
                &&& picker_frame(p, height, outer_width).body[at].row == fitted_entry(
                    focus(p).unwrap().marked,
                    focus(p).unwrap().primary,
                    focus(p).unwrap().secondary,
                    primary_cells(p, zone),
                    zone,
                )
            },
{
    let zone = rest(dialog_inner(outer_width), 2);
    let cell = primary_cells(p, zone);
    let echo = filter_rows(p, height);
    let capacity = body_capacity(height, echo);
    let shown = window_rows(p, capacity, cell, zone);
    let i = window_shows_the_highlight(p, capacity, cell, zone);
    let listed = list_body(p, echo, capacity, zone);
    assert(listed.len() == echo + shown.len());
    assert forall|j: int| 0 <= j < listed.len() implies (#[trigger] listed[j]).selected == (j == echo
        + i) by {
        if j >= echo {
            assert(listed[j] == shown[j - echo]);
        }
    }
    let body = picker_frame(p, height, outer_width).body;
    let lead: int = if has_blanks(height, echo) {
        1
    } else {
        0
    };
    let at = lead + echo + i;
    assert(body[at] == listed[echo + i]);
    assert(listed[echo + i] == shown[i]);
    assert forall|j: int| 0 <= j < body.len() implies (#[trigger] body[j]).selected == (j == at) by {
        if lead <= j < lead + listed.len() {
            assert(body[j] == listed[j - lead]);
        } else {
            assert(body[j] == blank_row());
        }
    }
    assert(alone_selected(body, at));
}

/// Every body row of the list level fits into the text zone, whatever its kind:
/// an entry with its marker column, every other row whole. A row's width is that
/// of the pieces it is cut into.
pub proof fn list_rows_fit_the_zone(p: PickerView, height: nat, outer_width: nat)
    requires
        !p.tier_mode,
        14 <= outer_width,
    ensures
        forall|i: int|
            0 <= i < picker_frame(p, height, outer_width).body.len() ==> row_fits(
                (#[trigger] picker_frame(p, height, outer_width).body[i]).row,
                (outer_width - 4) as nat,
            ),
{
    let zone = (outer_width - 4) as nat;
    assert(rest(dialog_inner(outer_width), 2) == zone);
    let cell = primary_cells(p, zone);
    let echo = filter_rows(p, height);
    let capacity = body_capacity(height, echo);
    let shown = window_rows(p, capacity, cell, zone);
    let rows = placed_rows(p, visible_of(p).len());
    let from = window_from(p, capacity);
    assert forall|j: int| 0 <= j < shown.len() implies row_fits((#[trigger] shown[j]).row, zone) by {
        let raw = rows[from + j].row;
        assert(shown[j].row == fitted(raw, cell, zone));
        match raw {
            RawView::Group(value) => text::truncation_takes_no_more(value, zone),
            RawView::Detail(value) => text::truncation_takes_no_more(value, zone),
            RawView::Entry { marked, primary, secondary } => entry_fits(
                marked,
                primary,
                secondary,
                cell,
                zone,
            ),
        }
    }
    text::truncation_takes_no_more("filter "@ + p.filter, zone);
    reveal_strlit("no matches");
    let nothing = Seq::<char>::empty();
    text::ascii_takes_its_length(nothing);
    text::ascii_takes_its_length("no matches"@);
    assert(takes_at_most(nothing, zone));
    assert(takes_at_most("no matches"@, zone));
    let listed = list_body(p, echo, capacity, zone);
    assert forall|j: int| 0 <= j < listed.len() implies row_fits((#[trigger] listed[j]).row, zone) by {
        if echo <= j < echo + shown.len() {
            assert(listed[j] == shown[j - echo]);
        }
    }
    let body = picker_frame(p, height, outer_width).body;
    let lead: int = if has_blanks(height, echo) {
        1
    } else {
        0
    };
    assert forall|j: int| 0 <= j < body.len() implies row_fits((#[trigger] body[j]).row, zone) by {
        if lead <= j < lead + listed.len() {
            assert(body[j] == listed[j - lead]);
        } else {
            assert(body[j] == blank_row());
        }
    }
}

/// Whether an entry's primary text takes at most `cell` cells and its tail what
/// the marker column and those leave.
pub open spec fn entry_split(primary: Seq<char>, tail: Seq<char>, cell: nat, zone: nat) -> bool {
    &&& 2 + cell <= zone
    &&& takes_at_most(primary, cell)
    &&& takes_at_most(tail, (zone - 2 - cell) as nat)
}

/// Whether an entry's texts fit into a text zone beside the marker column.
pub open spec fn entry_within(primary: Seq<char>, tail: Seq<char>, zone: nat) -> bool {
    exists|cell: nat| entry_split(primary, tail, cell, zone)
}

/// Whether a row fits into a text zone.
pub open spec fn row_fits(row: OverlayRowView, zone: nat) -> bool {
    match row {
        OverlayRowView::Entry { primary, tail, .. } => entry_within(primary, tail, zone),
        OverlayRowView::Text(value) => takes_at_most(value, zone),
        OverlayRowView::Group(value) => takes_at_most(value, zone),
        OverlayRowView::Detail(value) => takes_at_most(value, zone),
        OverlayRowView::Empty(value) => takes_at_most(value, zone),
    }
}

proof fn entry_fits(
    marked: bool,
    primary: Seq<char>,
    secondary: Seq<char>,
    cell: nat,
    zone: nat,
)
    requires
        2 + cell <= zone,
    ensures
        row_fits(fitted_entry(marked, primary, secondary, cell, zone), zone),
{
    let room = rest(zone, 2 + cell);
    let meta = truncated(secondary, room);
    text::padding_takes_no_more(truncated(primary, cell), cell);
    text::truncation_takes_no_more(secondary, room);
    if cell_width(meta) < room {
        text::spaces_before_fill(meta, room);
    } else {
        assert(repeated(' ', 0) + meta =~= meta);
    }
    let tail = repeated(' ', rest(room, cell_width(meta) as nat)) + meta;
    let kept = padded(truncated(primary, cell), cell);
    assert(entry_split(kept, tail, cell, zone));
}

/// With an empty filter every entry is visible, in order.
pub proof fn empty_filter_shows_everything(p: PickerView)
    requires
        p.filter.len() == 0,
    ensures
        visible_of(p) == Seq::new(p.entries.len(), |i: int| i as usize),
{
    everything_upto(p.entries, p.filter, p.entries.len());
}

proof fn everything_upto(entries: Seq<PickView>, filter: Seq<char>, count: nat)
    requires
        filter.len() == 0,
    ensures
        visible_upto(entries, filter, count) == Seq::new(count, |i: int| i as usize),
    decreases count,
{
    if count > 0 {
        everything_upto(entries, filter, (count - 1) as nat);
    }
    assert(visible_upto(entries, filter, count) =~= Seq::new(count, |i: int| i as usize));
}

/// A filter edit keeps the highlighted entry selected while it matches, unless an
/// entry that was hidden before comes back.
pub proof fn filter_edits_keep_the_highlight(p: PickerView, filter: Seq<char>)
    requires
        p.entries.len() <= usize::MAX,
        focus(p) is Some,
        shows(focus(p).unwrap(), filter),
        p.restore is None,
    ensures
        selected_id(refiltered(p, filter)) == selected_id(p),
        refiltered(p, filter).restore is None,
{
    let edited = PickerView { filter, ..p };
    let index = visible_of(p)[highlight(p) as int] as int;
    visible_range(p.entries, p.filter, p.entries.len());
    visible_range(p.entries, filter, p.entries.len());
    let at = matching_is_visible(p.entries, filter, p.entries.len(), index);
    position_is_found(edited, focus(p).unwrap().id, 0, at);
    let next = refiltered(p, filter);
    assert(visible_of(next) == visible_of(edited));
}

/// An entry that a filter edit hid is selected again by the first edit after
/// which it matches.
pub proof fn hidden_entries_come_back(p: PickerView, filter: Seq<char>, index: int)
    requires
        0 <= index < p.entries.len() <= usize::MAX,
        p.restore == Some(p.entries[index].id),
        shows(p.entries[index], filter),
    ensures
        selected_id(refiltered(p, filter)) == p.entries[index].id,
        refiltered(p, filter).restore is None,
{
    let edited = PickerView { filter, ..p };
    visible_range(p.entries, filter, p.entries.len());
    let at = matching_is_visible(p.entries, filter, p.entries.len(), index);
    position_is_found(edited, p.entries[index].id, 0, at);
    let next = refiltered(p, filter);
    assert(visible_of(next) == visible_of(edited));
}

/// Typing a filter character and erasing it again gives the highlighted entry
/// back, whether the character hid it or not.
pub proof fn erasing_undoes_typing(p: PickerView, ch: char)
    requires
        p.entries.len() <= usize::MAX,
        focus(p) is Some,
        selected_id(p).len() > 0,
        p.restore is None,
    ensures
        selected_id(refiltered(refiltered(p, p.filter.push(ch)), p.filter)) == selected_id(p),
        refiltered(refiltered(p, p.filter.push(ch)), p.filter).filter == p.filter,
        refiltered(refiltered(p, p.filter.push(ch)), p.filter).restore is None,
{
    let typed = refiltered(p, p.filter.push(ch));
    let edited = PickerView { filter: p.filter.push(ch), ..p };
    let index = visible_of(p)[highlight(p) as int] as int;
    visible_range(p.entries, p.filter, p.entries.len());
    visible_range(p.entries, p.filter.push(ch), p.entries.len());
    visible_matches(p.entries, p.filter, p.entries.len(), highlight(p) as int);
    if typed.restore is Some {
        hidden_entries_come_back(typed, p.filter, index);
    } else {
        let id = selected_id(p);
        position_is_kept(edited, id, 0);
        assert(visible_of(typed) == visible_of(edited));
        let other = visible_of(edited)[typed.selected as int] as int;
        assert(focus(typed) == Some(p.entries[other]));
        assert(p.entries[other].id == id);
        let at = matching_is_visible(p.entries, p.filter, p.entries.len(), index);
        let erased = PickerView { filter: p.filter, ..typed };
        assert(visible_of(erased) == visible_of(p));
        position_is_found(erased, id, 0, at);
        assert(visible_of(refiltered(typed, p.filter)) == visible_of(p));
    }
}

proof fn matching_is_visible(entries: Seq<PickView>, filter: Seq<char>, count: nat, index: int) -> (at:
    int)
    requires
        0 <= index < count <= entries.len() <= usize::MAX,
        shows(entries[index], filter),
    ensures
        0 <= at < visible_upto(entries, filter, count).len(),
        visible_upto(entries, filter, count)[at] == index,
    decreases count,
{
    let before = visible_upto(entries, filter, (count - 1) as nat);
    if index == count - 1 {
        before.len() as int
    } else {
        matching_is_visible(entries, filter, (count - 1) as nat, index)
    }
}

proof fn visible_matches(entries: Seq<PickView>, filter: Seq<char>, count: nat, at: int)
    requires
        count <= entries.len() <= usize::MAX,
        0 <= at < visible_upto(entries, filter, count).len(),
    ensures
        shows(entries[visible_upto(entries, filter, count)[at] as int], filter),
    decreases count,
{
    let before = visible_upto(entries, filter, (count - 1) as nat);
    if at < before.len() {
        visible_matches(entries, filter, (count - 1) as nat, at);
    }
}

proof fn position_is_kept(p: PickerView, id: Seq<char>, k: int)
    requires
        0 <= k,
    ensures
        position_of(p, id, k) < visible_of(p).len() ==> p.entries[visible_of(p)[position_of(
            p,
            id,
            k,
        ) as int] as int].id == id,
    decreases visible_of(p).len() - k,
{
    if k < visible_of(p).len() && p.entries[visible_of(p)[k] as int].id != id {
        position_is_kept(p, id, k + 1);
    }
}

proof fn position_is_found(p: PickerView, id: Seq<char>, k: int, at: int)
    requires
        0 <= k <= at < visible_of(p).len(),
        p.entries[visible_of(p)[at] as int].id == id,
    ensures
        k <= position_of(p, id, k) <= at,
        p.entries[visible_of(p)[position_of(p, id, k) as int] as int].id == id,
    decreases at - k,
{
    if p.entries[visible_of(p)[k] as int].id != id {
        position_is_found(p, id, k + 1, at);
    }
}

/// A preview is claimed at most once: after a claim, or once a preview has been
/// set, the same selection is not claimed again.
pub proof fn previews_are_claimed_once(slots: Seq<SlotView>, id: Seq<char>, preview: PreviewView)
    ensures
        preview_of(with_preview(slots, id, preview), id) == Some(preview),
{
    let after = with_preview(slots, id, preview);
    slot_of_set(slots, id, preview);
    assert(slot_of(after, id) < after.len());
}

proof fn slot_of_set(slots: Seq<SlotView>, id: Seq<char>, preview: PreviewView)
    ensures
        slot_of(with_preview(slots, id, preview), id) == (if slot_of(slots, id) < slots.len() {
            slot_of(slots, id)
        } else {
            slots.len()
        }),
        slot_of(slots, id) <= slots.len(),
    decreases slots.len(),
{
    let after = with_preview(slots, id, preview);
    if slots.len() == 0 {
        assert(after[0].id == id);
    } else if slots[0].id != id {
        slot_of_set(slots.skip(1), id, preview);
        assert(after.skip(1) =~= with_preview(slots.skip(1), id, preview));
        assert(after[0] == slots[0]);
    }
}

/// Setting one preview leaves every other as it was.
pub proof fn other_previews_are_kept(
    slots: Seq<SlotView>,
    id: Seq<char>,
    preview: PreviewView,
    other: Seq<char>,
)
    requires
        other != id,
    ensures
        preview_of(with_preview(slots, id, preview), other) == preview_of(slots, other),
    decreases slots.len(),
{
    let after = with_preview(slots, id, preview);
    if slots.len() == 0 {
        assert(after.skip(1) =~= Seq::<SlotView>::empty());
        reveal_with_fuel(slot_of, 2);
    } else if slots[0].id == other {
        assert(after[0] == slots[0]);
    } else {
        if slots[0].id == id {
            assert(after.skip(1) =~= slots.skip(1));
            assert(after[0].id == id);
        } else {
            other_previews_are_kept(slots.skip(1), id, preview, other);
            assert(after.skip(1) =~= with_preview(slots.skip(1), id, preview));
            assert(after[0] == slots[0]);
        }
        slot_bound(slots.skip(1), other);
        slot_bound(after.skip(1), other);
        let k = slot_of(slots.skip(1), other);
        if k < slots.skip(1).len() {
            assert(slots.skip(1)[k as int] == slots[k as int + 1]);
        }
        let j = slot_of(after.skip(1), other);
        if j < after.skip(1).len() {
            assert(after.skip(1)[j as int] == after[j as int + 1]);
        }
    }
}

proof fn slot_bound(slots: Seq<SlotView>, id: Seq<char>)
    ensures
        slot_of(slots, id) <= slots.len(),
    decreases slots.len(),
{
    if slots.len() > 0 && slots[0].id != id {
        slot_bound(slots.skip(1), id);
    }
}

/// The tier toggle changes the level and nothing of the list: toggling twice
/// gives the list back as it was, and session pickers ignore it.
pub proof fn toggling_keeps_the_list(p: PickerView)
    ensures
        !p.grouped ==> toggled(p) == p,
        toggled(p).selected == p.selected,
        toggled(p).entries == p.entries,
        toggled(p).filter == p.filter,
        p.grouped && p.tier_mode ==> !toggled(p).tier_mode,
{
}

/// Whether a text holds a query, letter case aside.
pub open spec fn mentions(text: Seq<char>, query: Seq<char>) -> bool {
    exists|at: int| #[trigger] occurs_at(lowercase_of(text), lowercase_of(query), at)
}

/// An entry is listed exactly where its name, its note, its group or its id holds
/// what was typed, letter case aside; the entries keep their order, and none is
/// listed twice.
pub proof fn the_filter_decides_what_is_listed(p: PickerView, index: usize)
    requires
        p.filter.len() > 0,
        lowercase_of(p.filter).len() > 0,
        index < p.entries.len() <= usize::MAX,
    ensures
        visible_of(p).contains(index) <==> mentions(p.entries[index as int].primary, p.filter)
            || mentions(p.entries[index as int].secondary, p.filter) || mentions(
            p.entries[index as int].group,
            p.filter,
        ) || mentions(p.entries[index as int].id, p.filter),
        forall|i: int, j: int|
            0 <= i < j < visible_of(p).len() ==> #[trigger] visible_of(p)[i]
                < #[trigger] visible_of(p)[j],
{
    listed_upto(p.entries, p.filter, p.entries.len(), index);
    let entry = p.entries[index as int];
    let query = lowercase_of(p.filter);
    occurring(lowercase_of(entry.primary), query);
    occurring(lowercase_of(entry.secondary), query);
    occurring(lowercase_of(entry.group), query);
    occurring(lowercase_of(entry.id), query);
}

proof fn occurring(text: Seq<char>, part: Seq<char>)
    ensures
        occurs(text, part) <==> exists|at: int| #[trigger] occurs_at(text, part, at),
{
}

proof fn listed_upto(entries: Seq<PickView>, filter: Seq<char>, count: nat, index: usize)
    requires
        count <= entries.len() <= usize::MAX,
    ensures
        visible_upto(entries, filter, count).contains(index) <==> index < count && shows(
            entries[index as int],
            filter,
        ),
        forall|i: int, j: int|
            0 <= i < j < visible_upto(entries, filter, count).len() ==> #[trigger] visible_upto(
                entries,
                filter,
                count,
            )[i] < #[trigger] visible_upto(entries, filter, count)[j],
    decreases count,
{
    if count > 0 {
        let fewer = (count - 1) as nat;
        let before = visible_upto(entries, filter, fewer);
        listed_upto(entries, filter, fewer, index);
        visible_range(entries, filter, fewer);
        vstd::seq_lib::lemma_seq_contains_after_push(before, fewer as usize, index);
    } else {
        assert(!visible_upto(entries, filter, count).contains(index));
    }
}

/// Moving goes entry by entry and stops at both ends.
pub proof fn moving_goes_entry_by_entry(selected: usize, count: nat)
    requires
        selected < count <= usize::MAX,
    ensures
        selected > 0 ==> stepped(selected, count, true) == selected - 1,
        stepped(0, count, true) == 0,
        selected + 1 < count ==> stepped(selected, count, false) == selected + 1,
        stepped((count - 1) as usize, count, false) == count - 1,
        selected + 1 < count ==> stepped(stepped(selected, count, false), count, true) == selected,
        selected > 0 ==> stepped(stepped(selected, count, true), count, false) == selected,
        stepped(selected, 0, true) == selected && stepped(selected, 0, false) == selected,
{
}

/// The entries among the rows of a list.
pub open spec fn entries_among(rows: Seq<PlacedView>) -> Seq<RawView>
    decreases rows.len(),
{
    if rows.len() == 0 {
        Seq::empty()
    } else if rows.last().row is Entry {
        entries_among(rows.drop_last()).push(rows.last().row)
    } else {
        entries_among(rows.drop_last())
    }
}

proof fn other_rows_add_no_entry(rows: Seq<PlacedView>, more: Seq<PlacedView>)
    requires
        forall|i: int| 0 <= i < more.len() ==> !((#[trigger] more[i]).row is Entry),
    ensures
        entries_among(rows + more) == entries_among(rows),
    decreases more.len(),
{
    if more.len() == 0 {
        assert(rows + more =~= rows);
    } else {
        let fewer = more.drop_last();
        assert forall|i: int| 0 <= i < fewer.len() implies !((#[trigger] fewer[i]).row is Entry) by {
            assert(fewer[i] == more[i]);
        }
        other_rows_add_no_entry(rows, fewer);
        assert((rows + more).drop_last() =~= rows + fewer);
        assert(!(more[more.len() - 1].row is Entry));
    }
}

/// Every entry that matches has one row in the list, in order, with its mark, its
/// name and its note.
pub proof fn every_match_has_a_row(p: PickerView, count: nat)
    ensures
        entries_among(placed_rows(p, count)) == Seq::new(
            count,
            |k: int| raw_entry(p.entries[visible_of(p)[k] as int]),
        ),
    decreases count,
{
    if count > 0 {
        let k = count - 1;
        every_match_has_a_row(p, k as nat);
        let before = placed_rows(p, k as nat);
        let entry = entry_at(p, k);
        let above = if k == 0 {
            Seq::empty()
        } else {
            entry_at(p, k - 1).group
        };
        let head = PlacedView {
            row: RawView::Group("  "@ + uppercase_of(entry.group)),
            position: k as nat,
        };
        let headed = if p.grouped && entry.group != above {
            before.push(head)
        } else {
            before
        };
        assert(before.push(head).drop_last() =~= before);
        assert(entries_among(headed) == entries_among(before));
        let listed = headed.push(PlacedView { row: raw_entry(entry), position: k as nat });
        assert(listed.drop_last() =~= headed);
        let details = detail_placed(p, k as nat);
        other_rows_add_no_entry(listed, details);
    }
    assert(entries_among(placed_rows(p, count)) =~= Seq::new(
        count,
        |k: int| raw_entry(p.entries[visible_of(p)[k] as int]),
    ));
}

/// The title of a list tells the highlighted entry's number and how many there
/// are.
pub proof fn titles_count_the_entries(p: PickerView)
    ensures
        p.selected < visible_of(p).len() ==> list_title(p) == p.title + " · "@ + decimal(
            p.selected as nat + 1,
        ) + "/"@ + decimal(visible_of(p).len()),
        visible_of(p).len() == 0 ==> list_title(p) == p.title + " · "@ + decimal(0) + "/"@
            + decimal(0),
{
}

/// A question shows its title and then the lines of its text, as many as there is
/// room for, in order and marked as a warning; it tells the keys that answer it.
pub proof fn questions_are_shown_line_by_line(
    prompt: PromptView,
    height: nat,
    max_width: nat,
    i: int,
)
    requires
        0 <= i < lines_of(prompt.body).len() + 1,
        i < body_capacity(height, 0),
    ensures
        ({
            let frame = prompt_frame(prompt, height, max_width);
            let top = if has_blanks(height, 0) {
                1int
            } else {
                0int
            };
            let zone = rest(prompt_inner(prompt, max_width), 2);
            &&& top + i < frame.body.len()
            &&& frame.body[top + i].row == OverlayRowView::Text(
                truncated(
                    if i == 0 {
                        prompt.title
                    } else {
                        lines_of(prompt.body)[i - 1]
                    },
                    zone,
                ),
            )
            &&& !frame.body[top + i].selected
            &&& frame.tone == OverlayTone::Warning
            &&& frame.footer == truncated(
                "y allow · n / esc deny"@,
                prompt_inner(prompt, max_width),
            )
        }),
{
}

/// The tiers of a model are listed in order where there is room for all of them,
/// the highlighted one selected and the one in use marked.
pub proof fn tiers_are_listed_in_order(p: PickerView, capacity: nat, zone: nat, i: int)
    requires
        0 <= i < tiers_of(p).len() <= capacity,
    ensures
        ({
            let line = tier_body(p, capacity, zone)[i];
            let used = p.current_effort == Some(lower_text(tiers_of(p)[i]));
            let cell = tier_cells(tiers_of(p), zone);
            &&& tier_body(p, capacity, zone).len() == tiers_of(p).len()
            &&& line.row is Entry
            &&& line.row->Entry_marked == used
            &&& line.row->Entry_primary == padded(truncated(tiers_of(p)[i], cell), cell)
            &&& line.selected == (i == if p.tier_selected < tiers_of(p).len() {
                p.tier_selected as int
            } else {
                tiers_of(p).len() - 1
            })
        }),
{
}

} // verus!
