//! Live tool tracking: one batch of tool calls is one card (a single tool) or
//! one tree (several), rewritten in place while its tools run.

use vstd::prelude::*;

use super::frontend::{
    copy_display, DisplayView, FrontendToolDisplay, FrontendToolResult, ResultView,
};
use super::prose::style::cap;
use super::transcript;
use super::transcript::{
    card_line, colored_seg, BodyView, CardBody, CardHeader, HeaderPiece, HeaderView, LineView,
    PieceView, SegColor, SegSpan, SegView, TranscriptLine,
};
use crate::strs;
use crate::strs::{decimal, numeral_value};

verus! {

/// How one call ended.
#[derive(Debug)]
pub struct SlotSettle {
    pub result: FrontendToolResult,
    /// What the tool sent to be shown in place of its result.
    pub display: Option<FrontendToolDisplay>,
    /// A cancelled call shows as such, whatever its result says.
    pub cancelled: bool,
}

/// A [`SlotSettle`] as a mathematical value.
pub struct SettleView {
    pub result: ResultView,
    pub display: Option<DisplayView>,
    pub cancelled: bool,
}

impl DeepView for SlotSettle {
    type V = SettleView;

    open spec fn deep_view(&self) -> SettleView {
        SettleView {
            result: self.result.deep_view(),
            display: self.display.deep_view(),
            cancelled: self.cancelled,
        }
    }
}

/// One call of the batch; times are milliseconds of the caller's clock.
#[derive(Debug)]
pub struct LiveSlot {
    pub index: usize,
    pub tool_name: String,
    pub arguments: String,
    pub started_at: u64,
    pub output: String,
    pub truncated: bool,
    pub settled: Option<SlotSettle>,
}

/// A [`LiveSlot`] as a mathematical value.
pub struct SlotView {
    pub index: usize,
    pub tool_name: Seq<char>,
    pub arguments: Seq<char>,
    pub started_at: u64,
    pub output: Seq<char>,
    pub truncated: bool,
    pub settled: Option<SettleView>,
}

impl DeepView for LiveSlot {
    type V = SlotView;

    open spec fn deep_view(&self) -> SlotView {
        SlotView {
            index: self.index,
            tool_name: self.tool_name@,
            arguments: self.arguments@,
            started_at: self.started_at,
            output: self.output@,
            truncated: self.truncated,
            settled: self.settled.deep_view(),
        }
    }
}

/// One batch in flight. `cell_index` is the cell that shows it.
#[derive(Debug)]
pub struct LiveBatch {
    pub total: usize,
    pub started_at: u64,
    pub slots: Vec<LiveSlot>,
    pub cell_index: Option<usize>,
}

/// A [`LiveBatch`] as a mathematical value.
pub struct BatchView {
    pub total: usize,
    pub started_at: u64,
    pub slots: Seq<SlotView>,
    pub cell_index: Option<usize>,
}

impl DeepView for LiveBatch {
    type V = BatchView;

    open spec fn deep_view(&self) -> BatchView {
        BatchView {
            total: self.total,
            started_at: self.started_at,
            slots: self.slots.deep_view(),
            cell_index: self.cell_index,
        }
    }
}

/// What the renderer contributes to one row of the tree: the call's target, the
/// color and word of its result, and how long it took.
#[derive(Debug)]
pub struct SlotFace {
    pub target: Option<SegSpan>,
    pub color: SegColor,
    pub word: String,
    pub time: String,
}

/// A [`SlotFace`] as a mathematical value.
pub struct FaceView {
    pub target: Option<SegView>,
    pub color: SegColor,
    pub word: Seq<char>,
    pub time: Seq<char>,
}

impl DeepView for SlotFace {
    type V = FaceView;

    open spec fn deep_view(&self) -> FaceView {
        FaceView {
            target: self.target.deep_view(),
            color: self.color,
            word: self.word@,
            time: self.time@,
        }
    }
}

/// What shows a batch: the card of its one running tool, or the tree.
#[derive(Debug)]
pub enum LiveCell {
    Running,
    Tree(TranscriptLine),
}

// ---------------------------------------------------------------------------
// The batch
// ---------------------------------------------------------------------------

/// A batch of which nothing started yet.
pub open spec fn fresh_batch(total: usize, now: u64) -> BatchView {
    BatchView { total, started_at: now, slots: Seq::empty(), cell_index: None }
}

/// The place of the first slot of that index, or the number of slots.
pub open spec fn slot_at(slots: Seq<SlotView>, index: usize) -> nat
    decreases slots.len(),
{
    if slots.len() == 0 || slots[0].index == index {
        0
    } else {
        1 + slot_at(slots.skip(1), index)
    }
}

/// Whether every announced tool has started and settled.
pub open spec fn settled(batch: BatchView) -> bool {
    &&& batch.total > 0
    &&& batch.slots.len() >= batch.total
    &&& forall|i: int| 0 <= i < batch.slots.len() ==> (#[trigger] batch.slots[i]).settled is Some
}

pub open spec fn slot_failed(slot: SlotView) -> bool {
    slot.settled is Some && (slot.settled->0.cancelled || slot.settled->0.result is Error)
}

pub open spec fn some_failed(batch: BatchView) -> bool {
    exists|i: int| 0 <= i < batch.slots.len() && slot_failed(#[trigger] batch.slots[i])
}

/// Milliseconds between two readings of the clock, none if it went back.
pub open spec fn span(from: u64, now: u64) -> u64 {
    if now >= from {
        (now - from) as u64
    } else {
        0
    }
}

impl LiveBatch {
    pub fn new(total: usize, now: u64) -> (batch: LiveBatch)
        ensures
            batch.deep_view() == fresh_batch(total, now),
    {
        let slots: Vec<LiveSlot> = Vec::new();
        assert(slots.deep_view() =~= Seq::<SlotView>::empty());
        LiveBatch { total, started_at: now, slots, cell_index: None }
    }

    pub fn elapsed(&self, now: u64) -> (millis: u64)
        ensures
            millis == span(self.started_at, now),
    {
        now.saturating_sub(self.started_at)
    }

    pub fn slot_elapsed(&self, slot: &LiveSlot, now: u64) -> (millis: u64)
        ensures
            millis == span(slot.started_at, now),
    {
        now.saturating_sub(slot.started_at)
    }

    /// The place of the first slot of that index.
    pub fn slot(&self, index: usize) -> (at: Option<usize>)
        ensures
            match at {
                Some(at) => at < self.deep_view().slots.len() && at == slot_at(
                    self.deep_view().slots,
                    index,
                ),
                None => slot_at(self.deep_view().slots, index) == self.deep_view().slots.len(),
            },
    {
        let ghost all = self.slots.deep_view();
        let mut i: usize = 0;
        proof {
            assert(all.skip(0) =~= all);
        }
        while i < self.slots.len()
            invariant
                i <= self.slots.len(),
                all == self.slots.deep_view(),
                slot_at(all, index) == i + slot_at(all.skip(i as int), index),
            decreases self.slots.len() - i,
        {
            proof {
                assert(all.skip(i as int)[0] == all[i as int]);
                assert(all[i as int] == self.slots@[i as int].deep_view());
                assert(all.skip(i as int).skip(1) =~= all.skip(i as int + 1));
            }
            if self.slots[i].index == index {
                return Some(i);
            }
            i += 1;
        }
        proof {
            assert(all.skip(i as int) =~= Seq::<SlotView>::empty());
        }
        None
    }

    /// Every announced tool has started and settled, or was cancelled.
    pub fn all_settled(&self) -> (yes: bool)
        ensures
            yes == settled(self.deep_view()),
    {
        let ghost all = self.slots.deep_view();
        assert(all.len() == self.slots@.len());
        if self.total == 0 || self.slots.len() < self.total {
            return false;
        }
        let mut i: usize = 0;
        while i < self.slots.len()
            invariant
                i <= self.slots.len(),
                all == self.slots.deep_view(),
                forall|k: int| 0 <= k < i ==> (#[trigger] all[k]).settled is Some,
            decreases self.slots.len() - i,
        {
            assert(all[i as int] == self.slots@[i as int].deep_view());
            if self.slots[i].settled.is_none() {
                assert(self.deep_view().slots[i as int].settled is None);
                return false;
            }
            i += 1;
        }
        true
    }

    pub fn any_failed(&self) -> (yes: bool)
        ensures
            yes == some_failed(self.deep_view()),
    {
        let ghost all = self.slots.deep_view();
        let mut i: usize = 0;
        while i < self.slots.len()
            invariant
                i <= self.slots.len(),
                all == self.slots.deep_view(),
                forall|k: int| 0 <= k < i ==> !slot_failed(#[trigger] all[k]),
            decreases self.slots.len() - i,
        {
            assert(all[i as int] == self.slots@[i as int].deep_view());
            if let Some(settle) = &self.slots[i].settled {
                let error = match &settle.result {
                    FrontendToolResult::Error { .. } => true,
                    FrontendToolResult::Success { .. } => false,
                };
                if settle.cancelled || error {
                    assert(slot_failed(self.deep_view().slots[i as int]));
                    return true;
                }
            }
            i += 1;
        }
        false
    }
}

// ---------------------------------------------------------------------------
// What happens to a batch
// ---------------------------------------------------------------------------

/// A call that just started.
pub open spec fn fresh_slot(
    index: usize,
    tool_name: Seq<char>,
    arguments: Seq<char>,
    now: u64,
) -> SlotView {
    SlotView {
        index,
        tool_name,
        arguments,
        started_at: now,
        output: Seq::empty(),
        truncated: false,
        settled: None,
    }
}

pub open spec fn has_slot(batch: BatchView, index: usize) -> bool {
    slot_at(batch.slots, index) < batch.slots.len()
}

/// The first slot of that index.
pub open spec fn slot_of(batch: BatchView, index: usize) -> SlotView {
    batch.slots[slot_at(batch.slots, index) as int]
}

pub open spec fn with_slot(batch: BatchView, index: usize, slot: SlotView) -> BatchView {
    BatchView {
        slots: batch.slots.update(slot_at(batch.slots, index) as int, slot),
        ..batch
    }
}

/// A call starts once.
pub open spec fn slot_started(batch: BatchView, slot: SlotView) -> BatchView {
    if has_slot(batch, slot.index) {
        batch
    } else {
        BatchView { slots: batch.slots.push(slot), ..batch }
    }
}

/// Whether a call still runs.
pub open spec fn runs(batch: BatchView, index: usize) -> bool {
    has_slot(batch, index) && slot_of(batch, index).settled is None
}

/// The bytes of a character in UTF-8.
pub open spec fn char_bytes(c: char) -> nat {
    vstd::utf8::encode_scalar(c as u32).len()
}

/// The bytes of a text in UTF-8.
pub open spec fn text_bytes(text: Seq<char>) -> nat
    decreases text.len(),
{
    if text.len() == 0 {
        0
    } else {
        text_bytes(text.drop_last()) + char_bytes(text.last())
    }
}

/// How many leading characters of a text fit into `room` bytes.
pub open spec fn chars_within(text: Seq<char>, room: int) -> nat
    decreases text.len(),
{
    if text.len() == 0 || char_bytes(text[0]) > room {
        0
    } else {
        1 + chars_within(text.skip(1), room - char_bytes(text[0]))
    }
}

/// How many bytes of output a slot still takes.
pub open spec fn output_room(slot: SlotView, limit: usize) -> nat {
    if text_bytes(slot.output) >= limit {
        0
    } else {
        (limit - text_bytes(slot.output)) as nat
    }
}

/// Output added up to the limit, no character cut apart; what does not fit is
/// marked as cut.
pub open spec fn slot_progressed(
    batch: BatchView,
    index: usize,
    tail: Seq<char>,
    limit: usize,
) -> BatchView {
    if !runs(batch, index) {
        batch
    } else {
        let slot = slot_of(batch, index);
        let room = output_room(slot, limit);
        let taken = chars_within(tail, room as int);
        with_slot(
            batch,
            index,
            SlotView {
                output: slot.output + tail.take(taken as int),
                truncated: slot.truncated || room == 0 || taken < tail.len(),
                ..slot
            },
        )
    }
}

/// Whether progress has to be painted: a full slot only notes that it is cut.
pub open spec fn paints_progress(batch: BatchView, index: usize, limit: usize) -> bool {
    runs(batch, index) && output_room(slot_of(batch, index), limit) > 0
}

/// A running call settles with its result; a settled one stays as it is.
pub open spec fn slot_completed(
    batch: BatchView,
    index: usize,
    result: ResultView,
    display: Option<DisplayView>,
) -> BatchView {
    if !runs(batch, index) {
        batch
    } else {
        with_slot(
            batch,
            index,
            SlotView {
                settled: Some(SettleView { result, display, cancelled: false }),
                ..slot_of(batch, index)
            },
        )
    }
}

pub open spec fn cancelled_slot(slot: SlotView) -> SlotView {
    if slot.settled is Some {
        slot
    } else {
        SlotView {
            settled: Some(
                SettleView {
                    result: ResultView::Error { code: "cancelled"@, message: Seq::empty() },
                    display: None,
                    cancelled: true,
                },
            ),
            ..slot
        }
    }
}

/// Every running call cancelled.
pub open spec fn batch_cancelled(batch: BatchView) -> BatchView {
    BatchView {
        slots: Seq::new(batch.slots.len(), |i: int| cancelled_slot(batch.slots[i])),
        ..batch
    }
}

fn bytes_of_char(c: char) -> (count: usize)
    ensures
        count == char_bytes(c),
        1 <= count <= 4,
{
    let code = c as u32;
    proof {
        vstd::utf8::char_is_scalar(c);
    }
    if code <= 0x7F {
        1
    } else if code <= 0x7FF {
        2
    } else if code <= 0xFFFF {
        3
    } else {
        4
    }
}

fn bytes_of(text: &str) -> (count: usize)
    ensures
        count == cap(text_bytes(text@)),
{
    let chars = strs::chars_of(text);
    let mut count: usize = 0;
    let mut i: usize = 0;
    while i < chars.len()
        invariant
            i <= chars.len(),
            count == cap(text_bytes(chars@.take(i as int))),
        decreases chars.len() - i,
    {
        assert(chars@.take(i as int + 1).drop_last() =~= chars@.take(i as int));
        count = count.saturating_add(bytes_of_char(chars[i]));
        i += 1;
    }
    assert(chars@.take(i as int) =~= text@);
    count
}

fn count_within(chars: &Vec<char>, room: usize) -> (count: usize)
    ensures
        count == chars_within(chars@, room as int),
        count <= chars.len(),
{
    let mut left: usize = room;
    let mut i: usize = 0;
    assert(chars@.skip(0) =~= chars@);
    while i < chars.len()
        invariant
            i <= chars.len(),
            chars_within(chars@, room as int) == i + chars_within(
                chars@.skip(i as int),
                left as int,
            ),
        decreases chars.len() - i,
    {
        let bytes = bytes_of_char(chars[i]);
        assert(chars@.skip(i as int)[0] == chars@[i as int]);
        assert(chars@.skip(i as int).skip(1) =~= chars@.skip(i as int + 1));
        if bytes > left {
            return i;
        }
        left -= bytes;
        i += 1;
    }
    i
}

impl LiveBatch {
    /// Notes that a call started; returns whether it is new.
    pub fn start(&mut self, index: usize, tool_name: &str, arguments: &str, now: u64) -> (new: bool)
        ensures
            final(self).deep_view() == slot_started(
                old(self).deep_view(),
                fresh_slot(index, tool_name@, arguments@, now),
            ),
            new == !has_slot(old(self).deep_view(), index),
    {
        if self.slot(index).is_some() {
            return false;
        }
        let ghost before = self.slots.deep_view();
        let slot = LiveSlot {
            index,
            tool_name: tool_name.to_owned(),
            arguments: arguments.to_owned(),
            started_at: now,
            output: String::new(),
            truncated: false,
            settled: None,
        };
        assert(slot.output@ =~= Seq::<char>::empty());
        self.slots.push(slot);
        assert(self.slots.deep_view() =~= before.push(slot.deep_view()));
        true
    }

    /// Adds output to a running call; returns whether its card changed.
    pub fn progress(&mut self, index: usize, tail: &str, limit: usize) -> (paint: bool)
        ensures
            final(self).deep_view() == slot_progressed(
                old(self).deep_view(),
                index,
                tail@,
                limit,
            ),
            paint == paints_progress(old(self).deep_view(), index, limit),
    {
        let ghost before = self.slots.deep_view();
        let at = match self.slot(index) {
            Some(at) => at,
            None => return false,
        };
        let slot = &self.slots[at];
        assert(before[at as int] == slot.deep_view());
        if slot.settled.is_some() {
            return false;
        }
        let room = limit.saturating_sub(bytes_of(slot.output.as_str()));
        let chars = strs::chars_of(tail);
        let taken = count_within(&chars, room);
        let mut output = slot.output.clone();
        let more = strs::string_of(&chars, 0, taken);
        output.push_str(more.as_str());
        assert(more@ =~= tail@.take(taken as int));
        let fresh = LiveSlot {
            index: slot.index,
            tool_name: slot.tool_name.clone(),
            arguments: slot.arguments.clone(),
            started_at: slot.started_at,
            output,
            truncated: slot.truncated || room == 0 || taken < chars.len(),
            settled: None,
        };
        self.slots.set(at, fresh);
        assert(self.slots.deep_view() =~= before.update(at as int, fresh.deep_view()));
        room > 0
    }

    /// Settles a running call; returns whether it ran.
    pub fn complete(
        &mut self,
        index: usize,
        result: &FrontendToolResult,
        display: &Option<FrontendToolDisplay>,
    ) -> (settled: bool)
        ensures
            final(self).deep_view() == slot_completed(
                old(self).deep_view(),
                index,
                result.deep_view(),
                display.deep_view(),
            ),
            settled == runs(old(self).deep_view(), index),
    {
        let ghost before = self.slots.deep_view();
        let at = match self.slot(index) {
            Some(at) => at,
            None => return false,
        };
        let slot = &self.slots[at];
        assert(before[at as int] == slot.deep_view());
        if slot.settled.is_some() {
            return false;
        }
        let fresh = LiveSlot {
            index: slot.index,
            tool_name: slot.tool_name.clone(),
            arguments: slot.arguments.clone(),
            started_at: slot.started_at,
            output: slot.output.clone(),
            truncated: slot.truncated,
            settled: Some(
                SlotSettle {
                    result: result.copy(),
                    display: copy_display(display),
                    cancelled: false,
                },
            ),
        };
        self.slots.set(at, fresh);
        assert(self.slots.deep_view() =~= before.update(at as int, fresh.deep_view()));
        true
    }

    /// Cancels every running call.
    pub fn cancel(&mut self)
        ensures
            final(self).deep_view() == batch_cancelled(old(self).deep_view()),
    {
        let ghost before = self.slots.deep_view();
        let mut i: usize = 0;
        while i < self.slots.len()
            invariant
                i <= self.slots.len(),
                self.slots@.len() == before.len(),
                self.total == old(self).total,
                self.started_at == old(self).started_at,
                self.cell_index == old(self).cell_index,
                forall|k: int|
                    0 <= k < i ==> (#[trigger] self.slots@[k]).deep_view() == cancelled_slot(
                        before[k],
                    ),
                forall|k: int|
                    i <= k < before.len() ==> (#[trigger] self.slots@[k]).deep_view() == before[k],
            decreases self.slots.len() - i,
        {
            let slot = &self.slots[i];
            if slot.settled.is_none() {
                let message = String::new();
                assert(message@ =~= Seq::<char>::empty());
                let fresh = LiveSlot {
                    index: slot.index,
                    tool_name: slot.tool_name.clone(),
                    arguments: slot.arguments.clone(),
                    started_at: slot.started_at,
                    output: slot.output.clone(),
                    truncated: slot.truncated,
                    settled: Some(
                        SlotSettle {
                            result: FrontendToolResult::Error {
                                code: "cancelled".to_owned(),
                                message,
                            },
                            display: None,
                            cancelled: true,
                        },
                    ),
                };
                self.slots.set(i, fresh);
            }
            i += 1;
        }
        assert(self.slots.deep_view() =~= batch_cancelled(old(self).deep_view()).slots);
    }
}

// ---------------------------------------------------------------------------
// The tree
// ---------------------------------------------------------------------------

/// The color and word of a row's state.
pub open spec fn slot_state(
    slot: SlotView,
    face: FaceView,
    spinner: Seq<char>,
) -> (SegColor, Seq<char>) {
    match slot.settled {
        Some(settle) => if settle.cancelled {
            (SegColor::Red, "✗ cancelled"@)
        } else {
            (face.color, face.word)
        },
        None => (SegColor::Yellow, spinner),
    }
}

pub open spec fn slot_cancelled(slot: SlotView) -> bool {
    slot.settled is Some && slot.settled->0.cancelled
}

/// One row of the tree: branch, bar, tool, target, status, time.
pub open spec fn child(
    slot: SlotView,
    face: FaceView,
    spinner: Seq<char>,
    last: bool,
) -> Seq<SegView> {
    let state = slot_state(slot, face, spinner);
    seq![
        colored_seg(
            if last {
                "└─ "@
            } else {
                "├─ "@
            },
            SegColor::Gray,
        ),
        colored_seg("▎ "@, state.0),
        SegView { text: slot.tool_name, color: SegColor::Gray, bold: true, tone: None },
    ] + (match face.target {
        Some(target) => seq![colored_seg(" "@, SegColor::Default), target],
        None => Seq::empty(),
    }) + (if state.1.len() > 0 {
        seq![colored_seg(" "@, SegColor::Default), colored_seg(state.1, state.0)]
    } else {
        Seq::empty()
    }) + (if slot_cancelled(slot) {
        Seq::empty()
    } else {
        seq![colored_seg(" "@, SegColor::Default), colored_seg(face.time, SegColor::DarkGray)]
    })
}

/// The rows of the tree. Every slot that shares the last one's index wears the
/// closing branch.
pub open spec fn child_rows(
    slots: Seq<SlotView>,
    faces: Seq<FaceView>,
    spinner: Seq<char>,
) -> Seq<Seq<SegView>> {
    Seq::new(
        slots.len(),
        |i: int| child(slots[i], faces[i], spinner, slots[i].index == slots.last().index),
    )
}

/// The tree of a batch.
pub open spec fn tree(
    batch: BatchView,
    faces: Seq<FaceView>,
    spinner: Seq<char>,
    time: Seq<char>,
) -> LineView {
    let state = if settled(batch) {
        if some_failed(batch) {
            (SegColor::Red, "✗ failed"@)
        } else {
            (SegColor::Green, "✓ done"@)
        }
    } else {
        (SegColor::Yellow, spinner)
    };
    card_line(
        HeaderView {
            bar: PieceView { text: "▎"@, color: state.0, bold: false },
            action: PieceView {
                text: "Parallel Task ("@ + decimal(batch.total as nat) + " operations)"@,
                color: SegColor::Gray,
                bold: true,
            },
            target: None,
            stats: None,
            status: PieceView { text: state.1, color: state.0, bold: false },
            time: Some(PieceView { text: time, color: SegColor::DarkGray, bold: false }),
        },
        BodyView {
            lines: child_rows(batch.slots, faces, spinner),
            threshold: 1,
            fold_default_collapsed: false,
            fold_count: batch.slots.len() as usize,
            fold_label: "operations 已折叠"@,
            fold_hint: false,
            fold_all: true,
        },
    )
}

pub fn child_row(slot: &LiveSlot, face: &SlotFace, spinner: &str, last: bool) -> (segs: Vec<
    SegSpan,
>)
    ensures
        segs.deep_view() == child(slot.deep_view(), face.deep_view(), spinner@, last),
{
    let ghost seen = slot.deep_view();
    let ghost shown = face.deep_view();
    let cancelled = match &slot.settled {
        Some(settle) => settle.cancelled,
        None => false,
    };
    let (color, status) = if cancelled {
        (SegColor::Red, "✗ cancelled".to_owned())
    } else if slot.settled.is_some() {
        (face.color, face.word.clone())
    } else {
        (SegColor::Yellow, spinner.to_owned())
    };
    assert((color, status@) == slot_state(seen, shown, spinner@));
    assert(cancelled == slot_cancelled(seen));
    let branch = if last {
        "└─ "
    } else {
        "├─ "
    };
    let mut segs: Vec<SegSpan> = Vec::new();
    segs.push(SegSpan::colored(branch.to_owned(), SegColor::Gray));
    segs.push(SegSpan::colored("▎ ".to_owned(), color));
    segs.push(
        SegSpan { text: slot.tool_name.clone(), color: SegColor::Gray, bold: true, tone: None },
    );
    let ghost head = segs.deep_view();
    proof {
        assert(head =~= seq![
            colored_seg(branch@, SegColor::Gray),
            colored_seg("▎ "@, color),
            SegView { text: seen.tool_name, color: SegColor::Gray, bold: true, tone: None },
        ]);
    }
    if let Some(target) = &face.target {
        segs.push(SegSpan::plain(" ".to_owned()));
        segs.push(target.copy());
    }
    let ghost aimed = segs.deep_view();
    proof {
        assert(aimed =~= head + (match shown.target {
            Some(target) => seq![colored_seg(" "@, SegColor::Default), target],
            None => Seq::empty(),
        }));
    }
    let ghost word = status@;
    if !status.as_str().is_empty() {
        segs.push(SegSpan::plain(" ".to_owned()));
        segs.push(SegSpan::colored(status, color));
    }
    let ghost stated = segs.deep_view();
    proof {
        assert(stated =~= aimed + (if word.len() > 0 {
            seq![colored_seg(" "@, SegColor::Default), colored_seg(word, color)]
        } else {
            Seq::empty()
        }));
    }
    if !cancelled {
        segs.push(SegSpan::plain(" ".to_owned()));
        segs.push(SegSpan::colored(face.time.clone(), SegColor::DarkGray));
    }
    proof {
        assert(segs.deep_view() =~= stated + (if cancelled {
            Seq::empty()
        } else {
            seq![colored_seg(" "@, SegColor::Default), colored_seg(shown.time, SegColor::DarkGray)]
        }));
    }
    segs
}

/// The concurrent tree as one cell: parent header and a row per call, folded as
/// a whole.
pub fn tree_cell(batch: &LiveBatch, faces: &Vec<SlotFace>, spinner: &str, time: &str) -> (cell:
    TranscriptLine)
    requires
        faces@.len() == batch.slots@.len(),
    ensures
        cell.deep_view() == tree(batch.deep_view(), faces.deep_view(), spinner@, time@),
{
    let slots = &batch.slots;
    let ghost all = slots.deep_view();
    let ghost given = faces.deep_view();
    let mut children: Vec<Vec<SegSpan>> = Vec::new();
    let mut i: usize = 0;
    while i < slots.len()
        invariant
            i <= slots.len(),
            all == slots.deep_view(),
            given == faces.deep_view(),
            faces@.len() == slots@.len(),
            children.len() == i,
            forall|k: int|
                0 <= k < i ==> (#[trigger] children@[k]).deep_view() == child_rows(
                    all,
                    given,
                    spinner@,
                )[k],
        decreases slots.len() - i,
    {
        assert(all[i as int] == slots@[i as int].deep_view());
        assert(all.last() == slots@[slots@.len() - 1].deep_view());
        assert(given[i as int] == faces@[i as int].deep_view());
        let last = slots[i].index == slots[slots.len() - 1].index;
        children.push(child_row(&slots[i], &faces[i], spinner, last));
        i += 1;
    }
    proof {
        assert(children.deep_view() =~= child_rows(all, given, spinner@));
    }
    let (bar, status) = if batch.all_settled() {
        if batch.any_failed() {
            (SegColor::Red, "✗ failed")
        } else {
            (SegColor::Green, "✓ done")
        }
    } else {
        (SegColor::Yellow, spinner)
    };
    let header = CardHeader {
        bar: HeaderPiece::new("▎".to_owned(), bar, false),
        action: HeaderPiece::new(
            strs::cat3(
                "Parallel Task (",
                strs::number(batch.total as u64).as_str(),
                " operations)",
            ),
            SegColor::Gray,
            true,
        ),
        target: None,
        stats: None,
        status: HeaderPiece::new(status.to_owned(), bar, false),
        time: Some(HeaderPiece::new(time.to_owned(), SegColor::DarkGray, false)),
    };
    let fold_count = children.len();
    transcript::card_cell(
        header,
        CardBody {
            lines: children,
            threshold: 1,
            fold_default_collapsed: false,
            fold_count,
            fold_label: "operations 已折叠".to_owned(),
            fold_hint: false,
            fold_all: true,
        },
    )
}

/// What shows the batch: a single call has a card of its own.
pub fn live_cell(batch: &LiveBatch, faces: &Vec<SlotFace>, spinner: &str, time: &str) -> (cell:
    LiveCell)
    requires
        faces@.len() == batch.slots@.len(),
    ensures
        match cell {
            LiveCell::Running => batch.total == 1,
            LiveCell::Tree(line) => batch.total != 1 && line.deep_view() == tree(
                batch.deep_view(),
                faces.deep_view(),
                spinner@,
                time@,
            ),
        },
{
    if batch.total == 1 {
        LiveCell::Running
    } else {
        LiveCell::Tree(tree_cell(batch, faces, spinner, time))
    }
}

// ---------------------------------------------------------------------------
// Laws
// ---------------------------------------------------------------------------

/// A cancelled call shows as cancelled, whatever its result says, and shows no
/// time.
pub proof fn cancellation_outranks_the_result(
    slot: SlotView,
    face: FaceView,
    spinner: Seq<char>,
    last: bool,
)
    requires
        slot_cancelled(slot),
    ensures
        slot_state(slot, face, spinner) == (SegColor::Red, "✗ cancelled"@),
        child(slot, face, spinner, last).last() == colored_seg("✗ cancelled"@, SegColor::Red),
{
    reveal_strlit("✗ cancelled");
    let row = child(slot, face, spinner, last);
    assert(row.last() == colored_seg("✗ cancelled"@, SegColor::Red));
}

/// The tree shows one row per call, in the order of the slots.
pub proof fn tree_has_a_row_per_call(
    batch: BatchView,
    faces: Seq<FaceView>,
    spinner: Seq<char>,
    time: Seq<char>,
)
    requires
        batch.slots.len() > 0,
    ensures
        tree(batch, faces, spinner, time).body is Some,
        tree(batch, faces, spinner, time).body->0.lines.len() == batch.slots.len(),
        forall|i: int|
            0 <= i < batch.slots.len() ==> (#[trigger] tree(
                batch,
                faces,
                spinner,
                time,
            ).body->0.lines[i])[2].text == batch.slots[i].tool_name,
{
}

/// A cancelled batch has settled if everything announced had started, and no
/// later result overwrites a cancellation.
pub proof fn cancellation_settles(
    batch: BatchView,
    index: usize,
    result: ResultView,
    display: Option<DisplayView>,
)
    ensures
        batch.total > 0 && batch.slots.len() >= batch.total ==> settled(batch_cancelled(batch)),
        slot_completed(batch_cancelled(batch), index, result, display) == batch_cancelled(batch),
{
    let after = batch_cancelled(batch);
    assert forall|i: int| 0 <= i < after.slots.len() implies (#[trigger] after.slots[i]).settled
        is Some by {}
    assert(!runs(after, index));
}

proof fn within_takes_no_more(text: Seq<char>, room: int)
    requires
        room >= 0,
    ensures
        chars_within(text, room) <= text.len(),
        text_bytes(text.take(chars_within(text, room) as int)) <= room,
    decreases text.len(),
{
    if text.len() == 0 || char_bytes(text[0]) > room {
        assert(text.take(0) =~= Seq::<char>::empty());
    } else {
        let rest = room - char_bytes(text[0]);
        within_takes_no_more(text.skip(1), rest);
        let count = chars_within(text.skip(1), rest) as int;
        let first = seq![text[0]];
        assert(text.take(count + 1) =~= first + text.skip(1).take(count));
        bytes_of_two(first, text.skip(1).take(count));
        assert(first.drop_last() =~= Seq::<char>::empty());
        reveal_with_fuel(text_bytes, 2);
    }
}

proof fn bytes_of_two(a: Seq<char>, b: Seq<char>)
    ensures
        text_bytes(a + b) == text_bytes(a) + text_bytes(b),
    decreases b.len(),
{
    if b.len() == 0 {
        assert(a + b =~= a);
    } else {
        assert((a + b).drop_last() =~= a + b.drop_last());
        bytes_of_two(a, b.drop_last());
    }
}

/// The output of a call never grows past the limit, in bytes.
pub proof fn output_is_bounded(batch: BatchView, index: usize, tail: Seq<char>, limit: usize)
    requires
        has_slot(batch, index),
        text_bytes(slot_of(batch, index).output) <= limit,
    ensures
        text_bytes(
            slot_progressed(batch, index, tail, limit).slots[slot_at(
                batch.slots,
                index,
            ) as int].output,
        ) <= limit,
{
    let slot = slot_of(batch, index);
    let room = output_room(slot, limit) as int;
    within_takes_no_more(tail, room);
    bytes_of_two(slot.output, tail.take(chars_within(tail, room) as int));
}

/// Whether slot `i` is the call of that index and still runs: the first of its
/// index, without a result.
pub open spec fn is_running(batch: BatchView, index: usize, i: int) -> bool {
    &&& 0 <= i < batch.slots.len()
    &&& batch.slots[i].index == index
    &&& batch.slots[i].settled is None
    &&& forall|j: int| 0 <= j < i ==> (#[trigger] batch.slots[j]).index != index
}

proof fn slot_is_found(slots: Seq<SlotView>, index: usize, i: int)
    requires
        0 <= i < slots.len(),
        slots[i].index == index,
        forall|j: int| 0 <= j < i ==> (#[trigger] slots[j]).index != index,
    ensures
        slot_at(slots, index) == i,
    decreases slots.len(),
{
    if i > 0 {
        assert(slots[0].index != index);
        let rest = slots.skip(1);
        assert forall|j: int| 0 <= j < i - 1 implies (#[trigger] rest[j]).index != index by {
            assert(rest[j] == slots[j + 1]);
        }
        slot_is_found(rest, index, i - 1);
    }
}

proof fn slot_is_missing(slots: Seq<SlotView>, index: usize)
    requires
        forall|j: int| 0 <= j < slots.len() ==> (#[trigger] slots[j]).index != index,
    ensures
        slot_at(slots, index) == slots.len(),
    decreases slots.len(),
{
    if slots.len() > 0 {
        let rest = slots.skip(1);
        assert(slots[0].index != index);
        assert forall|j: int| 0 <= j < rest.len() implies (#[trigger] rest[j]).index != index by {
            assert(rest[j] == slots[j + 1]);
        }
        slot_is_missing(rest, index);
    }
}

/// A running call that completes keeps everything but its result, which is the
/// one it completed with, and no other call changes.
pub proof fn completing_records_the_result(
    batch: BatchView,
    index: usize,
    i: int,
    result: ResultView,
    display: Option<DisplayView>,
)
    requires
        is_running(batch, index, i),
    ensures
        ({
            let after = slot_completed(batch, index, result, display);
            &&& after.total == batch.total
            &&& after.cell_index == batch.cell_index
            &&& after.slots.len() == batch.slots.len()
            &&& after.slots[i].settled is Some
            &&& after.slots[i].settled->0.result == result
            &&& after.slots[i].settled->0.display == display
            &&& !after.slots[i].settled->0.cancelled
            &&& after.slots[i].tool_name == batch.slots[i].tool_name
            &&& after.slots[i].output == batch.slots[i].output
            &&& forall|j: int|
                0 <= j < batch.slots.len() && j != i ==> #[trigger] after.slots[j]
                    == batch.slots[j]
        }),
{
    slot_is_found(batch.slots, index, i);
}

/// A call that completes with an error fails its batch, and one that completes
/// with a success does not.
pub proof fn errors_fail_the_batch(
    batch: BatchView,
    index: usize,
    i: int,
    code: Seq<char>,
    message: Seq<char>,
    content: Seq<char>,
    display: Option<DisplayView>,
)
    requires
        is_running(batch, index, i),
    ensures
        some_failed(
            slot_completed(batch, index, ResultView::Error { code, message }, display),
        ),
        some_failed(slot_completed(batch, index, ResultView::Success { content }, display))
            <==> some_failed(batch),
{
    slot_is_found(batch.slots, index, i);
    let failed = slot_completed(batch, index, ResultView::Error { code, message }, display);
    assert(slot_failed(failed.slots[i]));
    let done = slot_completed(batch, index, ResultView::Success { content }, display);
    assert(!slot_failed(done.slots[i]));
    assert(!slot_failed(batch.slots[i]));
    assert forall|j: int| 0 <= j < batch.slots.len() implies slot_failed(
        #[trigger] done.slots[j],
    ) == slot_failed(batch.slots[j]) by {}
    if some_failed(batch) {
        let j = choose|j: int| 0 <= j < batch.slots.len() && slot_failed(#[trigger] batch.slots[j]);
        assert(slot_failed(done.slots[j]));
    }
}

/// A failed batch stays failed, whatever else starts, writes, completes or is
/// cancelled.
pub proof fn failures_stay(
    batch: BatchView,
    index: usize,
    result: ResultView,
    display: Option<DisplayView>,
    slot: SlotView,
    output: Seq<char>,
    limit: usize,
)
    requires
        some_failed(batch),
    ensures
        some_failed(slot_completed(batch, index, result, display)),
        some_failed(slot_started(batch, slot)),
        some_failed(slot_progressed(batch, index, output, limit)),
        some_failed(batch_cancelled(batch)),
{
    let j = choose|j: int| 0 <= j < batch.slots.len() && slot_failed(#[trigger] batch.slots[j]);
    assert(slot_failed(slot_completed(batch, index, result, display).slots[j]));
    assert(slot_failed(slot_started(batch, slot).slots[j]));
    assert(slot_failed(slot_progressed(batch, index, output, limit).slots[j]));
    assert(slot_failed(batch_cancelled(batch).slots[j]));
}

/// Cancelling gives every call without a result one that says so, and leaves the
/// others as they ended. A batch in which something was cancelled has failed.
pub proof fn cancelling_spares_results(batch: BatchView, i: int)
    requires
        0 <= i < batch.slots.len(),
    ensures
        batch_cancelled(batch).slots.len() == batch.slots.len(),
        batch.slots[i].settled is Some ==> batch_cancelled(batch).slots[i] == batch.slots[i],
        batch.slots[i].settled is None ==> {
            let slot = batch_cancelled(batch).slots[i];
            &&& slot.settled is Some
            &&& slot.settled->0.cancelled
            &&& slot.settled->0.result is Error
            &&& slot.tool_name == batch.slots[i].tool_name
            &&& slot.output == batch.slots[i].output
            &&& some_failed(batch_cancelled(batch))
        },
{
    if batch.slots[i].settled is None {
        assert(slot_failed(batch_cancelled(batch).slots[i]));
    }
}

/// The header of the tree: it turns while something announced has not ended, it is
/// green and says so once every call ended in a success, and it is red and says so
/// once all ended and one of them in an error or a cancellation.
pub proof fn trees_tell_how_the_batch_ended(
    batch: BatchView,
    faces: Seq<FaceView>,
    spinner: Seq<char>,
    time: Seq<char>,
)
    requires
        batch.total > 0,
    ensures
        ({
            let header = tree(batch, faces, spinner, time).header;
            let ended = batch.slots.len() >= batch.total && forall|i: int|
                0 <= i < batch.slots.len() ==> (#[trigger] batch.slots[i]).settled is Some;
            let succeeded = forall|i: int|
                0 <= i < batch.slots.len() && (#[trigger] batch.slots[i]).settled is Some
                    ==> batch.slots[i].settled->0.result is Success
                    && !batch.slots[i].settled->0.cancelled;
            &&& header is Some
            &&& header->0.bar.color == header->0.status.color
            &&& !ended ==> header->0.status.text == spinner && header->0.status.color
                == SegColor::Yellow
            &&& ended && succeeded ==> header->0.status.text == "✓ done"@
                && header->0.status.color == SegColor::Green
            &&& ended && !succeeded ==> header->0.status.text == "✗ failed"@
                && header->0.status.color == SegColor::Red
            &&& header->0.time is Some && header->0.time->0.text == time
        }),
{
    if !(forall|i: int|
        0 <= i < batch.slots.len() && (#[trigger] batch.slots[i]).settled is Some
            ==> batch.slots[i].settled->0.result is Success
            && !batch.slots[i].settled->0.cancelled) {
        let i = choose|i: int|
            0 <= i < batch.slots.len() && (#[trigger] batch.slots[i]).settled is Some && !(
            batch.slots[i].settled->0.result is Success && !batch.slots[i].settled->0.cancelled);
        assert(slot_failed(batch.slots[i]));
        assert(some_failed(batch));
    } else if some_failed(batch) {
        let i = choose|i: int| 0 <= i < batch.slots.len() && slot_failed(#[trigger] batch.slots[i]);
        assert(batch.slots[i].settled->0.result is Success);
    }
}

/// The header of the tree counts the announced calls, in digits.
pub proof fn trees_count_their_calls(
    batch: BatchView,
    faces: Seq<FaceView>,
    spinner: Seq<char>,
    time: Seq<char>,
)
    ensures
        exists|digits: Seq<char>|
            #![trigger numeral_value(digits)]
            {
                &&& numeral_value(digits) == batch.total
                &&& tree(batch, faces, spinner, time).header->0.action.text == "Parallel Task ("@
                    + digits + " operations)"@
            },
{
    strs::numerals_read_back(batch.total as nat);
    let digits = decimal(batch.total as nat);
    assert(numeral_value(digits) == batch.total);
}

/// A call that starts is listed last under its name, running and without output;
/// one that is listed already is not listed again.
pub proof fn starting_lists_a_call_once(
    batch: BatchView,
    index: usize,
    tool_name: Seq<char>,
    arguments: Seq<char>,
    now: u64,
)
    ensures
        ({
            let after = slot_started(batch, fresh_slot(index, tool_name, arguments, now));
            let known = exists|i: int|
                0 <= i < batch.slots.len() && (#[trigger] batch.slots[i]).index == index;
            &&& known ==> after == batch
            &&& !known ==> {
                let last = after.slots.last();
                &&& after.slots.len() == batch.slots.len() + 1
                &&& after.slots.drop_last() == batch.slots
                &&& last.index == index
                &&& last.tool_name == tool_name
                &&& last.arguments == arguments
                &&& last.started_at == now
                &&& last.output.len() == 0
                &&& last.settled is None
                &&& !last.truncated
            }
        }),
{
    let fresh = fresh_slot(index, tool_name, arguments, now);
    if exists|i: int| 0 <= i < batch.slots.len() && (#[trigger] batch.slots[i]).index == index {
        known_slot_is_found(batch.slots, index);
    } else {
        slot_is_missing(batch.slots, index);
        assert(slot_started(batch, fresh).slots.drop_last() =~= batch.slots);
    }
}

proof fn known_slot_is_found(slots: Seq<SlotView>, index: usize)
    requires
        exists|i: int| 0 <= i < slots.len() && (#[trigger] slots[i]).index == index,
    ensures
        slot_at(slots, index) < slots.len(),
    decreases slots.len(),
{
    let i = choose|i: int| 0 <= i < slots.len() && (#[trigger] slots[i]).index == index;
    if slots[0].index != index {
        assert(slots.skip(1)[i - 1] == slots[i]);
        known_slot_is_found(slots.skip(1), index);
    }
}

proof fn everything_is_within(text: Seq<char>, room: int)
    requires
        text_bytes(text) <= room,
    ensures
        chars_within(text, room) == text.len(),
    decreases text.len(),
{
    if text.len() > 0 {
        let first = seq![text[0]];
        assert(text =~= first + text.skip(1));
        bytes_of_two(first, text.skip(1));
        assert(first.drop_last() =~= Seq::<char>::empty());
        reveal_with_fuel(text_bytes, 2);
        everything_is_within(text.skip(1), room - char_bytes(text[0]));
    }
}

/// Output of a running call goes behind what it wrote before: all of it where the
/// limit leaves room, which is then not marked as cut, and otherwise a beginning
/// of it, which is.
pub proof fn output_is_appended(
    batch: BatchView,
    index: usize,
    i: int,
    output: Seq<char>,
    limit: usize,
)
    requires
        is_running(batch, index, i),
    ensures
        ({
            let before = batch.slots[i];
            let after = slot_progressed(batch, index, output, limit).slots[i];
            let had = before.output.len() as int;
            let fits = text_bytes(before.output) + text_bytes(output) <= limit;
            &&& after.output.len() <= had + output.len()
            &&& after.output.take(had) == before.output
            &&& after.output.skip(had) == output.take(after.output.len() - had)
            &&& fits ==> after.output == before.output + output
            &&& fits && text_bytes(before.output) < limit ==> after.truncated == before.truncated
            &&& !fits ==> after.truncated
            &&& after.settled == before.settled
            &&& forall|j: int|
                0 <= j < batch.slots.len() && j != i ==> #[trigger] slot_progressed(
                    batch,
                    index,
                    output,
                    limit,
                ).slots[j] == batch.slots[j]
        }),
{
    slot_is_found(batch.slots, index, i);
    let before = batch.slots[i];
    let room = output_room(before, limit) as int;
    let taken = chars_within(output, room) as int;
    let after = slot_progressed(batch, index, output, limit).slots[i];
    within_takes_no_more(output, room);
    assert(after.output.take(before.output.len() as int) =~= before.output);
    assert(after.output.skip(before.output.len() as int) =~= output.take(taken));
    if text_bytes(before.output) + text_bytes(output) <= limit {
        everything_is_within(output, room);
        assert(output.take(taken) =~= output);
        assert(after.output =~= before.output + output);
    } else if room > 0 && taken == output.len() {
        assert(output.take(taken) =~= output);
    }
}

/// The row of a call in the tree: its branch, its name, and how it fares; a call
/// without a result shows the spinner, one with a result the word for it, and the
/// time stands last.
pub proof fn rows_tell_how_a_call_fares(
    slot: SlotView,
    face: FaceView,
    spinner: Seq<char>,
    last: bool,
)
    requires
        !(slot.settled is Some && slot.settled->0.cancelled),
    ensures
        ({
            let row = child(slot, face, spinner, last);
            let n = row.len() as int;
            let word = if slot.settled is None {
                spinner
            } else {
                face.word
            };
            let color = if slot.settled is None {
                SegColor::Yellow
            } else {
                face.color
            };
            &&& row[0].text == if last {
                "└─ "@
            } else {
                "├─ "@
            }
            &&& row[1].color == color
            &&& row[2].text == slot.tool_name
            &&& face.target is Some ==> row[4] == face.target->0
            &&& row[n - 1].text == face.time
            &&& word.len() > 0 ==> row[n - 3].text == word && row[n - 3].color == color
        }),
{
}

} // verus!
