//! Ordered transcript cells with an in-place open cursor, and the wrap slice.
//!
//! Wrapped rows are derived at the current width and are never the source of
//! truth. They are cached: the closed prefix is stable, a width change rebuilds
//! everything, and the open cell is always rewrapped. The store also owns
//! think-block timing, in milliseconds of a clock the caller reads.

use vstd::prelude::*;

use super::cards::{
    body_rows, header_row, project_card_body, project_card_header, project_think_header,
    think_header,
};
use super::prose::answer::{project_answer, projected_answer};
use super::prose::style::{
    cap, plain_row, BlockRole, ProjectedRow, ProseSpan, RoleView, RowView, SpanView,
};
use super::run_state::since;
use super::scroll::{
    heights, pinned, reaches_tail, row_count, rows_after, scrolled, tail_start, total,
    window_reaches_tail, window_start, ScrollState,
};
use super::text;
use super::text::{wrapped, wrapped_hanging, wrapped_reasoning};
use super::transcript::{copy_lines, line, plain_line, LineKind, LineView, Tone, TranscriptLine};
use crate::strs;

verus! {

// ---------------------------------------------------------------------------
// Rows of one cell
// ---------------------------------------------------------------------------

/// Raw rows of the given texts.
pub open spec fn plain_texts(texts: Seq<Seq<char>>) -> Seq<RowView> {
    texts.map_values(|text: Seq<char>| plain_row(text))
}

/// Whether a blank row separates the cell from the one before it: above a card
/// title, except below a user strip, and above an answer below a tool or another
/// answer.
pub open spec fn gap_above(prev: Option<LineKind>, cell: LineView) -> bool {
    match cell.kind {
        LineKind::Tool => cell.tone == Tone::Title && prev is Some && prev != Some(LineKind::User),
        LineKind::Answer => prev == Some(LineKind::Tool) || prev == Some(LineKind::Answer),
        _ => false,
    }
}

/// The wrapped rows of a cell by its kind, without the gap above it.
pub open spec fn kind_rows(cell: LineView, width: nat) -> Seq<RowView> {
    match cell.kind {
        LineKind::User => plain_texts(
            wrapped(
                cell.text,
                if width > 3 {
                    (width - 2) as nat
                } else {
                    1
                },
            ),
        ),
        LineKind::Answer => projected_answer(cell.text, width),
        LineKind::Tool => plain_texts(wrapped_hanging(cell.text, width)),
        LineKind::Reasoning => plain_texts(wrapped_reasoning(cell.text, width)),
        _ => plain_texts(wrapped(cell.text, width)),
    }
}

/// The rows of a cell on its own, cards unfolded.
pub open spec fn line_rows(cell: LineView, width: nat, prev: Option<LineKind>) -> Seq<RowView> {
    match cell.header {
        Some(header) => seq![header_row(header, width)],
        None => match cell.body {
            Some(body) => body_rows(body, width, false),
            None => {
                let rows = kind_rows(cell, width);
                if gap_above(prev, cell) && rows.len() > 0 {
                    seq![plain_row(Seq::empty())] + rows
                } else {
                    rows
                }
            },
        },
    }
}

fn plain_rows(texts: Vec<String>) -> (rows: Vec<ProjectedRow>)
    ensures
        rows.deep_view() == plain_texts(texts.deep_view()),
{
    let ghost all = texts.deep_view();
    let mut rows: Vec<ProjectedRow> = Vec::new();
    let mut i: usize = 0;
    while i < texts.len()
        invariant
            i <= texts.len(),
            all == texts.deep_view(),
            rows.len() == i,
            forall|k: int| 0 <= k < i ==> (#[trigger] rows@[k]).deep_view() == plain_row(all[k]),
        decreases texts.len() - i,
    {
        rows.push(ProjectedRow::plain(texts[i].clone()));
        i += 1;
    }
    proof {
        assert(rows.deep_view() =~= plain_texts(all));
    }
    rows
}

/// Whether a blank row separates the cell from the one before it.
pub fn needs_leading_gap(prev: Option<LineKind>, cell: &TranscriptLine) -> (yes: bool)
    ensures
        yes == gap_above(prev, cell.deep_view()),
{
    match cell.kind {
        LineKind::Tool => cell.tone == Tone::Title && match prev {
            None | Some(LineKind::User) => false,
            _ => true,
        },
        LineKind::Answer => match prev {
            Some(LineKind::Tool) | Some(LineKind::Answer) => true,
            _ => false,
        },
        _ => false,
    }
}

/// Wraps one cell, cards unfolded.
pub fn wrap_line(cell: &TranscriptLine, width: usize, prev: Option<LineKind>) -> (rows: Vec<
    ProjectedRow,
>)
    ensures
        rows.deep_view() == line_rows(cell.deep_view(), width as nat, prev),
{
    if let Some(header) = &cell.header {
        let mut rows: Vec<ProjectedRow> = Vec::new();
        let row = project_card_header(header, width);
        rows.push(row);
        proof {
            assert(rows.deep_view() =~= seq![row.deep_view()]);
        }
        return rows;
    }
    if let Some(body) = &cell.body {
        return project_card_body(body, width, false);
    }
    let rows = match cell.kind {
        LineKind::User => plain_rows(
            text::wrap(
                cell.text.as_str(),
                if width > 3 {
                    width - 2
                } else {
                    1
                },
            ),
        ),
        LineKind::Answer => project_answer(cell.text.as_str(), width),
        LineKind::Tool => plain_rows(text::wrap_hanging(cell.text.as_str(), width)),
        LineKind::Reasoning => plain_rows(text::wrap_reasoning(cell.text.as_str(), width)),
        _ => plain_rows(text::wrap(cell.text.as_str(), width)),
    };
    let mut rows = rows;
    if needs_leading_gap(prev, cell) && rows.len() > 0 {
        let ghost before = rows.deep_view();
        let gap = ProjectedRow::plain(String::new());
        rows.insert(0, gap);
        proof {
            assert(gap.deep_view() == plain_row(Seq::<char>::empty()));
            assert(rows.deep_view() =~= seq![gap.deep_view()] + before);
        }
    }
    rows
}

/// The kind of the cell before cell `i`.
pub open spec fn kind_before(cells: Seq<LineView>, i: int) -> Option<LineKind> {
    if i <= 0 {
        None
    } else {
        Some(cells[i - 1].kind)
    }
}

/// The first cell of the run of reasoning cells that holds cell `i`.
pub open spec fn run_head(cells: Seq<LineView>, i: int) -> int
    decreases i,
{
    if i > 0 && cells[i - 1].kind == LineKind::Reasoning {
        run_head(cells, i - 1)
    } else {
        i
    }
}

/// The fold state of cell `i`; cells without one are open.
pub open spec fn is_folded(folds: Seq<bool>, i: int) -> bool {
    0 <= i < folds.len() && folds[i]
}

/// The rows of cell `i` in its place: a think header with its duration, nothing
/// for the body of a folded think block, a card folded or not, and the wrapped
/// cell otherwise. Reasoning runs fold by their first cell, cards by their own.
pub open spec fn cell_rows(
    cells: Seq<LineView>,
    i: int,
    width: nat,
    folds: Seq<bool>,
    elapsed: Option<u64>,
) -> Seq<RowView> {
    let cell = cells[i];
    let prev = kind_before(cells, i);
    if cell.kind == LineKind::Tool && (cell.header is Some || cell.body is Some) {
        let head = match cell.header {
            Some(header) => seq![header_row(header, width)],
            None => Seq::empty(),
        };
        match cell.body {
            Some(body) => head + body_rows(body, width, is_folded(folds, i)),
            None => head,
        }
    } else if cell.kind == LineKind::Reasoning && cell.text == "think"@ {
        seq![think_header(elapsed, width)]
    } else if cell.kind == LineKind::Reasoning && is_folded(folds, run_head(cells, i)) {
        Seq::empty()
    } else {
        line_rows(cell, width, prev)
    }
}

/// Consecutive reasoning cells form one visual think block: the head of each
/// cell's run.
struct ReasoningRuns {
    head_of: Vec<usize>,
}

impl ReasoningRuns {
    fn scan(cells: &Vec<TranscriptLine>) -> (runs: ReasoningRuns)
        ensures
            runs.head_of.len() == cells.len(),
            forall|i: int|
                0 <= i < cells.len() ==> #[trigger] runs.head_of@[i] == run_head(
                    cells.deep_view(),
                    i,
                ),
    {
        let ghost all = cells.deep_view();
        let mut head_of: Vec<usize> = Vec::new();
        let mut i: usize = 0;
        while i < cells.len()
            invariant
                i <= cells.len(),
                all == cells.deep_view(),
                head_of.len() == i,
                forall|k: int| 0 <= k < i ==> #[trigger] head_of@[k] == run_head(all, k),
            decreases cells.len() - i,
        {
            let head = if i > 0 && cells[i - 1].kind == LineKind::Reasoning {
                assert(all[i - 1].kind == LineKind::Reasoning);
                head_of[i - 1]
            } else {
                i
            };
            head_of.push(head);
            i += 1;
        }
        ReasoningRuns { head_of }
    }
}

fn folded_at(folds: &Vec<bool>, i: usize) -> (yes: bool)
    ensures
        yes == is_folded(folds@, i as int),
{
    i < folds.len() && folds[i]
}

/// One display row list for a cell in its place.
fn project_cell(
    cells: &Vec<TranscriptLine>,
    index: usize,
    width: usize,
    head: usize,
    folds: &Vec<bool>,
    elapsed: Option<u64>,
) -> (rows: Vec<ProjectedRow>)
    requires
        index < cells.len(),
        head == run_head(cells.deep_view(), index as int),
    ensures
        rows.deep_view() == cell_rows(
            cells.deep_view(),
            index as int,
            width as nat,
            folds@,
            elapsed,
        ),
{
    let cell = &cells[index];
    assert(cells.deep_view()[index as int] == cell.deep_view());
    let prev = if index == 0 {
        None
    } else {
        Some(cells[index - 1].kind)
    };
    if cell.kind == LineKind::Tool && (cell.header.is_some() || cell.body.is_some()) {
        let mut rows: Vec<ProjectedRow> = Vec::new();
        if let Some(header) = &cell.header {
            rows.push(project_card_header(header, width));
        }
        let ghost head_rows = rows.deep_view();
        proof {
            match &cell.header {
                Some(header) => {
                    assert(head_rows =~= seq![header_row(header.deep_view(), width as nat)]);
                },
                None => {
                    assert(head_rows =~= Seq::<RowView>::empty());
                },
            }
        }
        if let Some(body) = &cell.body {
            let mut more = project_card_body(body, width, folded_at(folds, index));
            let ghost added = more.deep_view();
            rows.append(&mut more);
            proof {
                assert(rows.deep_view() =~= head_rows + added);
            }
        }
        return rows;
    }
    if cell.kind == LineKind::Reasoning {
        if strs::same(cell.text.as_str(), "think") {
            let mut rows: Vec<ProjectedRow> = Vec::new();
            let row = project_think_header(elapsed, width);
            rows.push(row);
            proof {
                assert(rows.deep_view() =~= seq![row.deep_view()]);
            }
            return rows;
        }
        if folded_at(folds, head) {
            let rows: Vec<ProjectedRow> = Vec::new();
            proof {
                assert(rows.deep_view() =~= Seq::<RowView>::empty());
            }
            return rows;
        }
    }
    wrap_line(cell, width, prev)
}

// ---------------------------------------------------------------------------
// Think timing
// ---------------------------------------------------------------------------

/// Wall-clock timing for one think block, keyed by its header cell. Live blocks
/// tick against the clock; sealed blocks show the captured span.
#[derive(Clone, Copy, Debug, PartialEq, Eq)]
pub struct ThinkTiming {
    pub head: usize,
    pub started: u64,
    /// First-to-last delta span once the block stops streaming.
    pub elapsed: u64,
    pub live: bool,
}

pub open spec fn timing_elapsed(timing: ThinkTiming, now: u64) -> u64 {
    if timing.live {
        since(timing.started, now)
    } else {
        timing.elapsed
    }
}

/// The duration shown for the think block whose header sits at `head`.
pub open spec fn think_time(think: Seq<ThinkTiming>, head: int, now: u64) -> Option<u64>
    decreases think.len(),
{
    if think.len() == 0 {
        None
    } else if think[0].head == head {
        Some(timing_elapsed(think[0], now))
    } else {
        think_time(think.skip(1), head, now)
    }
}

/// Whether no block that still streams has its header at or above cell `i`.
pub open spec fn steady(think: Seq<ThinkTiming>, i: int) -> bool {
    forall|k: int| 0 <= k < think.len() && (#[trigger] think[k]).live ==> think[k].head > i
}

proof fn steady_time(think: Seq<ThinkTiming>, i: int, a: u64, b: u64)
    requires
        steady(think, i),
    ensures
        think_time(think, i, a) == think_time(think, i, b),
    decreases think.len(),
{
    if think.len() > 0 && think[0].head != i {
        assert(steady(think.skip(1), i)) by {
            assert forall|k: int|
                0 <= k < think.skip(1).len() && (#[trigger] think.skip(1)[k]).live implies think.skip(
                1,
            )[k].head > i by {
                assert(think.skip(1)[k] == think[k + 1]);
            }
        }
        steady_time(think.skip(1), i, a, b);
    } else if think.len() > 0 {
        assert(think[0].head == i);
    }
}

// ---------------------------------------------------------------------------
// The store
// ---------------------------------------------------------------------------

/// Wrapped rows kept from the last refresh.
#[derive(Clone, Debug)]
pub struct WrapCache {
    pub width: usize,
    /// The cells whose rows are kept from one refresh to the next.
    pub closed_upto: usize,
    pub revision: u64,
    pub rows: Vec<Vec<ProjectedRow>>,
    /// The folds the rows were made under.
    pub folds: Vec<bool>,
}

/// Canonical history for one session: one ordered cell list plus an optional
/// in-place open cursor on the last cell.
#[derive(Clone, Debug)]
pub struct TranscriptStore {
    pub cells: Vec<TranscriptLine>,
    pub open: Option<usize>,
    pub wrap_revision: u64,
    pub cache: WrapCache,
    pub think: Vec<ThinkTiming>,
}

/// The rows of every cell, freshly projected; none in zero cells of width.
pub open spec fn fresh_rows(
    cells: Seq<LineView>,
    think: Seq<ThinkTiming>,
    width: nat,
    folds: Seq<bool>,
    now: u64,
) -> Seq<Seq<RowView>> {
    if width == 0 {
        Seq::empty()
    } else {
        Seq::new(
            cells.len(),
            |i: int| cell_rows(cells, i, width, folds, think_time(think, i, now)),
        )
    }
}

/// The entries that are not for the header at `head`.
pub open spec fn other_blocks(think: Seq<ThinkTiming>, head: usize) -> Seq<ThinkTiming>
    decreases think.len(),
{
    if think.len() == 0 {
        Seq::empty()
    } else {
        let rest = other_blocks(think.drop_last(), head);
        if think.last().head == head {
            rest
        } else {
            rest.push(think.last())
        }
    }
}

/// Every live entry frozen at `now`.
pub open spec fn sealed(think: Seq<ThinkTiming>, now: u64) -> Seq<ThinkTiming> {
    think.map_values(
        |t: ThinkTiming|
            if t.live {
                ThinkTiming { elapsed: since(t.started, now), live: false, ..t }
            } else {
                t
            },
    )
}

/// The first live entry, or the number of entries.
pub open spec fn first_live(think: Seq<ThinkTiming>) -> int
    decreases think.len(),
{
    if think.len() == 0 || think[0].live {
        0
    } else {
        1 + first_live(think.skip(1))
    }
}

/// How many cells at the head of the transcript are settled: neither open nor
/// behind the header of a think block that still streams.
pub open spec fn settled_upto(len: nat, open: Option<usize>, think: Seq<ThinkTiming>) -> nat
    decreases think.len(),
{
    if think.len() == 0 {
        match open {
            Some(open) => open as nat,
            None => len,
        }
    } else {
        let before = settled_upto(len, open, think.drop_last());
        let last = think.last();
        if last.live && last.head < before {
            last.head as nat
        } else {
            before
        }
    }
}

impl WrapCache {
    fn fresh(width: usize, revision: u64) -> (cache: WrapCache)
        ensures
            cache.width == width,
            cache.closed_upto == 0,
            cache.revision == revision,
            cache.rows@.len() == 0,
            cache.folds@.len() == 0,
    {
        WrapCache { width, closed_upto: 0, revision, rows: Vec::new(), folds: Vec::new() }
    }
}

impl TranscriptStore {
    /// The cells, as mathematical values.
    pub open spec fn lines(&self) -> Seq<LineView> {
        self.cells.deep_view()
    }

    /// Whether the kept rows of cell `i` are those of the cell as it stands,
    /// unless a think block at or above it still streams.
    pub open spec fn keeps(&self, i: int) -> bool {
        steady(self.think@, i) ==> self.cache.rows@[i].deep_view() == cell_rows(
            self.lines(),
            i,
            self.cache.width as nat,
            self.cache.folds@,
            think_time(self.think@, i, 0),
        )
    }

    /// The open cursor is always the last cell, and the kept prefix of the
    /// wrapped rows is up to date.
    pub closed spec fn wf(&self) -> bool {
        &&& match self.open {
            Some(open) => open + 1 == self.cells@.len() && self.cache.closed_upto <= open,
            None => true,
        }
        &&& self.cache.closed_upto <= self.cells@.len()
        &&& self.cache.closed_upto <= self.cache.rows@.len()
        &&& forall|i: int| 0 <= i < self.cache.closed_upto ==> #[trigger] self.keeps(i)
    }

    /// No row was wrapped yet, at any width that a terminal has.
    pub open spec fn unwrapped(&self) -> bool {
        &&& self.cache.width == usize::MAX
        &&& self.cache.closed_upto == 0
        &&& self.cache.revision == 0
        &&& self.cache.rows@ == Seq::<Vec<ProjectedRow>>::empty()
        &&& self.cache.folds@ == Seq::<bool>::empty()
    }

    /// What the store's well-formedness says of the open cell: it is the last.
    pub proof fn wf_keeps_open_last(&self)
        requires
            self.wf(),
        ensures
            self.open is Some ==> self.open->0 + 1 == self.lines().len(),
    {
    }

    /// An empty transcript: nothing is open, timed or wrapped.
    pub fn new() -> (store: TranscriptStore)
        ensures
            store.wf(),
            store.lines() == Seq::<LineView>::empty(),
            store.open is None,
            store.think@ == Seq::<ThinkTiming>::empty(),
            store.wrap_revision == 0,
            store.unwrapped(),
    {
        let store = TranscriptStore {
            cells: Vec::new(),
            open: None,
            wrap_revision: 0,
            cache: WrapCache::fresh(usize::MAX, 0),
            think: Vec::new(),
        };
        proof {
            assert(store.lines() =~= Seq::<LineView>::empty());
            assert(store.cache.rows@ =~= Seq::<Vec<ProjectedRow>>::empty());
            assert(store.cache.folds@ =~= Seq::<bool>::empty());
        }
        store
    }

    pub fn clear(&mut self)
        ensures
            final(self).wf(),
            final(self).lines() == Seq::<LineView>::empty(),
            final(self).open is None,
            final(self).think@ == Seq::<ThinkTiming>::empty(),
            final(self).wrap_revision == (if old(self).wrap_revision == u64::MAX {
                0
            } else {
                (old(self).wrap_revision + 1) as u64
            }),
            final(self).unwrapped(),
    {
        self.cells = Vec::new();
        self.open = None;
        self.think = Vec::new();
        self.wrap_revision = self.wrap_revision.wrapping_add(1);
        self.cache = WrapCache::fresh(usize::MAX, 0);
        proof {
            assert(self.lines() =~= Seq::<LineView>::empty());
            assert(self.think@ =~= Seq::<ThinkTiming>::empty());
            assert(self.cache.rows@ =~= Seq::<Vec<ProjectedRow>>::empty());
            assert(self.cache.folds@ =~= Seq::<bool>::empty());
        }
    }

    /// Manual fold changes rebuild the cached rows at the next refresh.
    pub fn bump_wrap_revision(&mut self)
        requires
            old(self).wf(),
        ensures
            final(self).wf(),
            final(self).cells == old(self).cells,
            final(self).open == old(self).open,
            final(self).think == old(self).think,
            final(self).cache.closed_upto == 0,
    {
        self.forget_wraps();
    }

    fn forget_wraps(&mut self)
        ensures
            final(self).wf() == (match old(self).open {
                Some(open) => open + 1 == old(self).cells@.len(),
                None => true,
            }),
            final(self).cells == old(self).cells,
            final(self).open == old(self).open,
            final(self).think == old(self).think,
            final(self).cache.closed_upto == 0,
    {
        self.wrap_revision = self.wrap_revision.wrapping_add(1);
        self.cache.closed_upto = 0;
    }

    /// A reasoning block opened its header at `head`: start its wall clock.
    pub fn begin_think(&mut self, head: usize, now: u64)
        requires
            old(self).wf(),
        ensures
            final(self).wf(),
            final(self).cells == old(self).cells,
            final(self).open == old(self).open,
            final(self).think@ == other_blocks(old(self).think@, head).push(
                ThinkTiming { head, started: now, elapsed: 0, live: true },
            ),
    {
        let mut kept: Vec<ThinkTiming> = Vec::new();
        let mut i: usize = 0;
        proof {
            assert(kept@ =~= other_blocks(self.think@.take(0), head));
        }
        while i < self.think.len()
            invariant
                i <= self.think.len(),
                *self == *old(self),
                kept@ == other_blocks(self.think@.take(i as int), head),
            decreases self.think.len() - i,
        {
            proof {
                assert(self.think@.take(i as int + 1).drop_last() =~= self.think@.take(i as int));
            }
            if self.think[i].head != head {
                kept.push(self.think[i]);
            }
            i += 1;
        }
        proof {
            assert(self.think@.take(i as int) =~= self.think@);
        }
        kept.push(ThinkTiming { head, started: now, elapsed: 0, live: true });
        let ghost before = self.think@;
        self.think = kept;
        if self.cache.closed_upto > head {
            self.cache.closed_upto = head;
        }
        proof {
            assert forall|i: int| 0 <= i < self.cache.closed_upto implies #[trigger] self.keeps(
                i,
            ) by {
                assert(old(self).keeps(i));
                others_keep_time(before, head, i);
                if steady(self.think@, i) {
                    others_steady(before, head, i);
                    let last = ThinkTiming { head, started: now, elapsed: 0, live: true };
                    push_keeps_time(other_blocks(before, head), last, i);
                    assert(steady(other_blocks(before, head), i)) by {
                        assert forall|k: int|
                            0 <= k < other_blocks(before, head).len() && (#[trigger] other_blocks(
                                before,
                                head,
                            )[k]).live implies other_blocks(before, head)[k].head > i by {
                            assert(self.think@[k] == other_blocks(before, head)[k]);
                        }
                    }
                }
            }
        }
    }

    /// The live block received another delta: extend its span.
    pub fn extend_think(&mut self, now: u64)
        requires
            old(self).wf(),
        ensures
            final(self).wf(),
            final(self).cells == old(self).cells,
            final(self).open == old(self).open,
            final(self).think@ == (if first_live(old(self).think@) < old(self).think@.len() {
                let k = first_live(old(self).think@);
                let timing = old(self).think@[k];
                old(self).think@.update(
                    k,
                    ThinkTiming { elapsed: since(timing.started, now), ..timing },
                )
            } else {
                old(self).think@
            }),
    {
        let mut i: usize = 0;
        proof {
            assert(self.think@.skip(0) =~= self.think@);
        }
        while i < self.think.len() && !self.think[i].live
            invariant
                i <= self.think.len(),
                *self == *old(self),
                first_live(self.think@) == i + first_live(self.think@.skip(i as int)),
            decreases self.think.len() - i,
        {
            proof {
                assert(self.think@.skip(i as int).skip(1) =~= self.think@.skip(i as int + 1));
            }
            i += 1;
        }
        if i < self.think.len() {
            let timing = self.think[i];
            let ghost before = self.think@;
            self.think.set(
                i,
                ThinkTiming {
                    head: timing.head,
                    started: timing.started,
                    elapsed: now.saturating_sub(timing.started),
                    live: timing.live,
                },
            );
            proof {
                let after = self.think@;
                assert forall|j: int| 0 <= j < self.cache.closed_upto implies #[trigger] self.keeps(
                    j,
                ) by {
                    assert(old(self).keeps(j));
                    if steady(after, j) {
                        assert(steady(before, j)) by {
                            assert forall|k: int|
                                0 <= k < before.len() && (
                                #[trigger] before[k]).live implies before[k].head > j by {
                                assert(after[k].live && after[k].head == before[k].head);
                            }
                        }
                        live_update_keeps_time(before, i as int, after[i as int], j);
                    }
                }
            }
        }
    }

    /// Streaming ended for every live block: freeze their spans and drop the
    /// cached rows so the next projection bakes the final durations in.
    pub fn seal_think(&mut self, now: u64)
        requires
            old(self).wf(),
        ensures
            final(self).wf(),
            final(self).cells == old(self).cells,
            final(self).open == old(self).open,
            final(self).think@ == sealed(old(self).think@, now),
    {
        let ghost before = self.think@;
        let mut any = false;
        let mut i: usize = 0;
        while i < self.think.len()
            invariant
                i <= self.think.len(),
                self.think@.len() == before.len(),
                before == old(self).think@,
                self.cells == old(self).cells,
                self.open == old(self).open,
                self.cache == old(self).cache,
                self.wrap_revision == old(self).wrap_revision,
                forall|k: int|
                    0 <= k < i ==> #[trigger] self.think@[k] == sealed(before, now)[k],
                forall|k: int| i <= k < before.len() ==> #[trigger] self.think@[k] == before[k],
                !any ==> self.think@ == before,
            decreases self.think.len() - i,
        {
            let timing = self.think[i];
            if timing.live {
                self.think.set(
                    i,
                    ThinkTiming {
                        head: timing.head,
                        started: timing.started,
                        elapsed: now.saturating_sub(timing.started),
                        live: false,
                    },
                );
                any = true;
            }
            i += 1;
        }
        proof {
            assert(self.think@ =~= sealed(before, now));
        }
        if any {
            self.forget_wraps();
        } else {
            proof {
                assert forall|j: int| 0 <= j < self.cache.closed_upto implies #[trigger] self.keeps(
                    j,
                ) by {
                    assert(old(self).keeps(j));
                }
            }
        }
    }

    /// Display duration of the think block whose header sits at `head`.
    pub fn think_elapsed_at(&self, head: usize, now: u64) -> (elapsed: Option<u64>)
        ensures
            elapsed == think_time(self.think@, head as int, now),
    {
        let mut i: usize = 0;
        proof {
            assert(self.think@.skip(0) =~= self.think@);
        }
        while i < self.think.len()
            invariant
                i <= self.think.len(),
                think_time(self.think@, head as int, now) == think_time(
                    self.think@.skip(i as int),
                    head as int,
                    now,
                ),
            decreases self.think.len() - i,
        {
            proof {
                assert(self.think@.skip(i as int)[0] == self.think@[i as int]);
                assert(self.think@.skip(i as int).skip(1) =~= self.think@.skip(i as int + 1));
            }
            let timing = self.think[i];
            if timing.head == head {
                return Some(
                    if timing.live {
                        now.saturating_sub(timing.started)
                    } else {
                        timing.elapsed
                    },
                );
            }
            i += 1;
        }
        None
    }

    /// All cells, including the open cell when one exists.
    pub fn cells(&self) -> (cells: &Vec<TranscriptLine>)
        ensures
            *cells == self.cells,
    {
        &self.cells
    }

    /// Same ordered list as the store cells (including the open cell).
    pub fn display_cells(&self) -> (cells: Vec<TranscriptLine>)
        ensures
            cells.deep_view() == self.lines(),
    {
        copy_lines(&self.cells)
    }

    pub fn is_empty(&self) -> (yes: bool)
        ensures
            yes == (self.lines().len() == 0),
    {
        self.cells.len() == 0
    }

    pub fn display_len(&self) -> (len: usize)
        ensures
            len == self.lines().len(),
    {
        self.cells.len()
    }

    pub fn display_kind(&self, index: usize) -> (kind: LineKind)
        requires
            index < self.lines().len(),
        ensures
            kind == self.lines()[index as int].kind,
    {
        self.cells[index].kind
    }

    /// Paint intent of the cell at `index`.
    pub fn display_tone(&self, index: usize) -> (tone: Tone)
        requires
            index < self.lines().len(),
        ensures
            tone == self.lines()[index as int].tone,
    {
        self.cells[index].tone
    }

    pub fn open_index(&self) -> (open: Option<usize>)
        ensures
            open == self.open,
    {
        self.open
    }

    pub fn has_open(&self) -> (yes: bool)
        ensures
            yes == (self.open is Some),
    {
        self.open.is_some()
    }

    pub fn open_kind(&self) -> (kind: Option<LineKind>)
        requires
            self.wf(),
        ensures
            kind == (match self.open {
                Some(open) => Some(self.lines()[open as int].kind),
                None => None,
            }),
    {
        match self.open {
            Some(open) => Some(self.cells[open].kind),
            None => None,
        }
    }

    /// Read access to one cell.
    pub fn cell_at(&self, index: usize) -> (cell: Option<&TranscriptLine>)
        ensures
            match cell {
                Some(cell) => index < self.cells@.len() && *cell == self.cells@[index as int],
                None => index >= self.cells@.len(),
            },
    {
        if index < self.cells.len() {
            Some(&self.cells[index])
        } else {
            None
        }
    }

    /// Close any open cell, then append already-finished cells.
    pub fn push_closed(&mut self, lines: Vec<TranscriptLine>)
        requires
            old(self).wf(),
        ensures
            final(self).wf(),
            final(self).lines() == old(self).lines() + lines.deep_view(),
            final(self).open is None,
            final(self).think == old(self).think,
    {
        let ghost before = self.lines();
        let ghost added = lines.deep_view();
        let mut lines = lines;
        self.open = None;
        self.cells.append(&mut lines);
        proof {
            assert(self.lines() =~= before + added);
            assert(before =~= self.lines().take(before.len() as int));
            self.keeps_prefix(old(self));
        }
    }

    /// Close any open cell, then push a new last cell and mark it open.
    pub fn begin(&mut self, kind: LineKind, text: &str)
        requires
            old(self).wf(),
        ensures
            final(self).wf(),
            final(self).lines() == old(self).lines().push(plain_line(kind, text@)),
            final(self).open == Some(old(self).lines().len() as usize),
            final(self).think == old(self).think,
    {
        let ghost before = self.lines();
        self.cells.push(line(kind, text));
        self.open = Some(self.cells.len() - 1);
        proof {
            assert(self.lines() =~= before.push(plain_line(kind, text@)));
            assert(before =~= self.lines().take(before.len() as int));
            self.keeps_prefix(old(self));
        }
    }

    /// Append to the open cell.
    pub fn write_open(&mut self, text: &str)
        requires
            old(self).wf(),
            old(self).open is Some,
        ensures
            final(self).wf(),
            final(self).open == old(self).open,
            final(self).think == old(self).think,
            final(self).lines() == old(self).lines().drop_last().push(
                LineView {
                    text: old(self).lines().last().text + text@,
                    ..old(self).lines().last()
                },
            ),
    {
        let ghost before = self.lines();
        if let Some(last) = self.cells.pop() {
            let mut last = last;
            last.text.push_str(text);
            self.cells.push(last);
        }
        proof {
            assert(self.lines() =~= before.drop_last().push(
                LineView { text: before.last().text + text@, ..before.last() },
            ));
            self.keeps_prefix(old(self));
        }
    }

    pub fn close_open(&mut self)
        requires
            old(self).wf(),
        ensures
            final(self).wf(),
            final(self).cells == old(self).cells,
            final(self).open is None,
            final(self).think == old(self).think,
    {
        self.open = None;
        proof {
            self.keeps_prefix(old(self));
        }
    }

    /// Replace one settled cell in place; only its tail rewraps.
    pub fn replace_cell(&mut self, index: usize, line: TranscriptLine)
        requires
            old(self).wf(),
            index < old(self).lines().len(),
            old(self).open != Some(index),
        ensures
            final(self).wf(),
            final(self).lines() == old(self).lines().update(index as int, line.deep_view()),
            final(self).open == old(self).open,
            final(self).think == old(self).think,
    {
        let ghost before = self.lines();
        self.cells.set(index, line);
        if self.cache.closed_upto > index {
            self.cache.closed_upto = index;
        }
        self.cache.revision = self.wrap_revision;
        proof {
            assert(self.lines() =~= before.update(index as int, line.deep_view()));
            self.keeps_prefix(old(self));
        }
    }

    /// Replaces everything from `index` onward with `lines`, which must not cover
    /// the open cell. An open cell that gets lines behind it is closed.
    pub fn replace_tail(&mut self, index: usize, lines: Vec<TranscriptLine>)
        requires
            old(self).wf(),
            index <= old(self).lines().len(),
            old(self).open is Some ==> old(self).open->0 < index,
        ensures
            final(self).wf(),
            final(self).lines() == old(self).lines().take(index as int) + lines.deep_view(),
            final(self).open == (if lines@.len() == 0 {
                old(self).open
            } else {
                None
            }),
            final(self).think == old(self).think,
    {
        let ghost before = self.lines();
        let ghost added = lines.deep_view();
        let mut lines = lines;
        if lines.len() > 0 {
            self.open = None;
        }
        self.cells.truncate(index);
        self.cells.append(&mut lines);
        if self.cache.closed_upto > index {
            self.cache.closed_upto = index;
        }
        self.cache.revision = self.wrap_revision;
        proof {
            assert(self.lines() =~= before.take(index as int) + added);
            self.keeps_prefix(old(self));
        }
    }

    /// Takes the cells from `len` on out again; the cell before them is open again
    /// where `open` says so.
    pub fn withdraw(&mut self, len: usize, open: Option<usize>) -> (lines: Vec<TranscriptLine>)
        requires
            old(self).wf(),
            len <= old(self).lines().len(),
            open is Some ==> open->0 + 1 == len,
        ensures
            final(self).wf(),
            final(self).lines() == old(self).lines().take(len as int),
            final(self).open == open,
            final(self).think == old(self).think,
            lines.deep_view() == old(self).lines().skip(len as int),
    {
        let ghost before = self.lines();
        let lines = self.cells.split_off(len);
        let kept: usize = match open {
            Some(at) => at,
            None => len,
        };
        self.open = open;
        if self.cache.closed_upto > kept {
            self.cache.closed_upto = kept;
        }
        self.cache.revision = self.wrap_revision;
        proof {
            assert(self.lines() =~= before.take(len as int));
            assert(lines.deep_view() =~= before.skip(len as int));
            self.keeps_prefix(old(self));
        }
        lines
    }

    /// Remove the open cell so a line-oriented remainder can be rewritten.
    pub fn take_open(&mut self) -> (cell: Option<TranscriptLine>)
        requires
            old(self).wf(),
        ensures
            final(self).wf(),
            final(self).open is None,
            final(self).think == old(self).think,
            match old(self).open {
                Some(open) => cell is Some && cell->0.deep_view() == old(self).lines().last()
                    && final(self).lines() == old(self).lines().drop_last(),
                None => cell is None && final(self).cells == old(self).cells,
            },
    {
        if self.open.is_none() {
            return None;
        }
        let ghost before = self.lines();
        self.open = None;
        let cell = self.cells.pop();
        proof {
            assert(self.lines() =~= before.drop_last());
            self.keeps_prefix(old(self));
        }
        cell
    }

    /// Rows of a prefix depend on that prefix alone, so what was kept of an
    /// earlier state is still good.
    proof fn keeps_prefix(&self, earlier: &TranscriptStore)
        requires
            earlier.wf(),
            self.think == earlier.think,
            self.cache.rows == earlier.cache.rows,
            self.cache.width == earlier.cache.width,
            self.cache.folds == earlier.cache.folds,
            self.cache.closed_upto <= earlier.cache.closed_upto,
            self.cache.closed_upto <= self.lines().len(),
            forall|i: int|
                0 <= i < self.cache.closed_upto ==> #[trigger] self.lines()[i]
                    == earlier.lines()[i],
        ensures
            forall|i: int| 0 <= i < self.cache.closed_upto ==> #[trigger] self.keeps(i),
    {
        assert forall|i: int| 0 <= i < self.cache.closed_upto implies #[trigger] self.keeps(i) by {
            assert(earlier.keeps(i));
            assert forall|k: int| 0 <= k <= i implies self.lines()[k] == earlier.lines()[k] by {
                assert(0 <= k < self.cache.closed_upto);
            }
            prefix_decides_rows(
                earlier.lines(),
                self.lines(),
                i,
                self.cache.width as nat,
                self.cache.folds@,
                self.cache.folds@,
                think_time(self.think@, i, 0),
            );
        }
    }

    /// The first cell that is rewrapped at every refresh: the open cell, or the
    /// header of a think block that still streams.
    fn rewrap_from(&self) -> (from: usize)
        requires
            self.wf(),
        ensures
            from == settled_upto(self.lines().len(), self.open, self.think@),
            from <= self.cells@.len(),
            self.open is Some ==> from <= self.open->0,
            forall|i: int| 0 <= i < from ==> #[trigger] steady(self.think@, i),
    {
        let mut from: usize = match self.open {
            Some(open) => open,
            None => self.cells.len(),
        };
        let mut k: usize = 0;
        while k < self.think.len()
            invariant
                k <= self.think.len(),
                from == settled_upto(self.lines().len(), self.open, self.think@.take(k as int)),
                from <= self.cells@.len(),
                self.open is Some ==> from <= self.open->0,
                forall|j: int|
                    0 <= j < k && (#[trigger] self.think@[j]).live ==> self.think@[j].head >= from,
            decreases self.think.len() - k,
        {
            let timing = self.think[k];
            proof {
                assert(self.think@.take(k as int + 1).drop_last() =~= self.think@.take(k as int));
            }
            if timing.live && timing.head < from {
                from = timing.head;
            }
            k += 1;
        }
        proof {
            assert(self.think@.take(k as int) =~= self.think@);
        }
        from
    }

    /// Brings the wrapped rows up to date. The closed prefix is stable; always
    /// rewraps from the open cell — or, while a think block streams, from its
    /// header so the live duration re-renders every frame.
    pub fn refresh_wraps(&mut self, width: usize, folds: &Vec<bool>, now: u64)
        requires
            old(self).wf(),
        ensures
            final(self).wf(),
            final(self).cells == old(self).cells,
            final(self).open == old(self).open,
            final(self).think == old(self).think,
            final(self).wrap_revision == old(self).wrap_revision,
            final(self).cache.width == width,
            final(self).cache.closed_upto == (if width == 0 {
                0
            } else {
                settled_upto(old(self).lines().len(), old(self).open, old(self).think@)
            }),
            final(self).cache.rows.deep_view() == fresh_rows(
                old(self).lines(),
                old(self).think@,
                width as nat,
                folds@,
                now,
            ),
    {
        let ghost all = self.lines();
        if self.cache.revision != self.wrap_revision || width == 0 || self.cache.width != width {
            self.cache = WrapCache::fresh(width, self.wrap_revision);
        }
        if width == 0 {
            proof {
                assert(self.cache.rows.deep_view() =~= Seq::<Seq<RowView>>::empty());
            }
            return ;
        }
        let from = self.rewrap_from();
        let mut start: usize = if self.cache.closed_upto < from {
            self.cache.closed_upto
        } else {
            from
        };
        let mut k: usize = 0;
        while k < start
            invariant
                k <= start <= self.cache.closed_upto,
                start <= from,
                forall|j: int|
                    0 <= j < k ==> is_folded(folds@, j) == is_folded(
                        #[trigger] self.cache.folds@,
                        j,
                    ),
            decreases start - k,
        {
            if folded_at(folds, k) != folded_at(&self.cache.folds, k) {
                start = k;
            } else {
                k += 1;
            }
        }
        let runs = ReasoningRuns::scan(&self.cells);
        let mut rows: Vec<Vec<ProjectedRow>> = Vec::new();
        let mut kept: Vec<Vec<ProjectedRow>> = Vec::new();
        std::mem::swap(&mut kept, &mut self.cache.rows);
        kept.truncate(start);
        rows.append(&mut kept);
        let ghost expected = fresh_rows(all, self.think@, width as nat, folds@, now);
        proof {
            assert forall|i: int| 0 <= i < start implies (#[trigger] rows@[i]).deep_view()
                == expected[i] by {
                assert(old(self).keeps(i));
                assert(steady(self.think@, i));
                steady_time(self.think@, i, 0, now);
                assert forall|j: int| 0 <= j <= i implies is_folded(folds@, j) == is_folded(
                    old(self).cache.folds@,
                    j,
                ) by {
                    assert(0 <= j < start);
                }
                prefix_decides_rows(
                    all,
                    all,
                    i,
                    width as nat,
                    old(self).cache.folds@,
                    folds@,
                    think_time(self.think@, i, 0),
                );
            }
        }
        let mut i: usize = start;
        while i < self.cells.len()
            invariant
                start <= i <= self.cells.len(),
                width > 0,
                all == self.lines(),
                expected == fresh_rows(all, self.think@, width as nat, folds@, now),
                runs.head_of.len() == self.cells.len(),
                forall|j: int|
                    0 <= j < self.cells.len() ==> #[trigger] runs.head_of@[j] == run_head(all, j),
                rows.len() == i,
                forall|j: int| 0 <= j < i ==> (#[trigger] rows@[j]).deep_view() == expected[j],
            decreases self.cells.len() - i,
        {
            let elapsed = self.think_elapsed_at(i, now);
            let row = project_cell(&self.cells, i, width, runs.head_of[i], folds, elapsed);
            proof {
                assert(row.deep_view() == expected[i as int]);
            }
            rows.push(row);
            i += 1;
        }
        let mut saved: Vec<bool> = Vec::new();
        let mut j: usize = 0;
        while j < folds.len()
            invariant
                j <= folds.len(),
                saved@ == folds@.take(j as int),
            decreases folds.len() - j,
        {
            saved.push(folds[j]);
            proof {
                assert(saved@ =~= folds@.take(j as int + 1));
            }
            j += 1;
        }
        proof {
            assert(saved@ =~= folds@);
        }
        self.cache = WrapCache {
            width,
            closed_upto: from,
            revision: self.wrap_revision,
            rows,
            folds: saved,
        };
        proof {
            assert(self.cache.rows.deep_view() =~= expected);
            assert forall|i: int| 0 <= i < self.cache.closed_upto implies #[trigger] self.keeps(
                i,
            ) by {
                assert(rows@[i].deep_view() == expected[i]);
                assert(steady(self.think@, i));
                steady_time(self.think@, i, now, 0);
            }
        }
    }

    /// The rows of the last refresh.
    pub fn wrap_rows(&self) -> (rows: &Vec<Vec<ProjectedRow>>)
        ensures
            *rows == self.cache.rows,
    {
        &self.cache.rows
    }

    /// The visible window at a width and height.
    pub fn visible_slice(
        &mut self,
        width: usize,
        height: usize,
        scroll: &ScrollState,
        folds: &Vec<bool>,
        now: u64,
    ) -> (slice: VisibleSlice)
        requires
            old(self).wf(),
        ensures
            final(self).wf(),
            final(self).cells == old(self).cells,
            final(self).open == old(self).open,
            final(self).think == old(self).think,
            slice.deep_view() == slice_for(
                old(self).lines(),
                fresh_rows(old(self).lines(), old(self).think@, width as nat, folds@, now),
                width as nat,
                height as nat,
                *scroll,
            ),
    {
        self.refresh_wraps(width, folds, now);
        slice_from_wraps(&self.cells, &self.cache.rows, width, height, scroll)
    }

    pub fn cached_width(&self) -> (width: usize)
        ensures
            width == self.cache.width,
    {
        self.cache.width
    }

    pub fn cached_closed_upto(&self) -> (count: usize)
        ensures
            count == self.cache.closed_upto,
    {
        self.cache.closed_upto
    }
}

impl Default for TranscriptStore {
    fn default() -> (store: TranscriptStore)
        ensures
            store.wf(),
            store.lines() == Seq::<LineView>::empty(),
            store.open is None,
            store.think@ == Seq::<ThinkTiming>::empty(),
            store.wrap_revision == 0,
            store.unwrapped(),
    {
        TranscriptStore::new()
    }
}

proof fn others_keep_time(think: Seq<ThinkTiming>, head: usize, i: int)
    ensures
        i != head ==> think_time(other_blocks(think, head), i, 0) == think_time(think, i, 0),
    decreases think.len(),
{
    if i != head && think.len() > 0 {
        let rest = think.drop_last();
        others_keep_time(rest, head, i);
        push_keeps_any(rest, think.last(), i);
        assert(rest.push(think.last()) =~= think);
        push_keeps_any(other_blocks(rest, head), think.last(), i);
    }
}

/// Appending an entry adds at most its own time.
proof fn push_keeps_any(think: Seq<ThinkTiming>, last: ThinkTiming, i: int)
    ensures
        think_time(think.push(last), i, 0) == (match think_time(think, i, 0) {
            Some(time) => Some(time),
            None => if last.head == i {
                Some(timing_elapsed(last, 0))
            } else {
                None
            },
        }),
    decreases think.len(),
{
    let all = think.push(last);
    if think.len() == 0 {
        assert(all.skip(1) =~= Seq::<ThinkTiming>::empty());
        reveal_with_fuel(think_time, 2);
    } else if think[0].head != i {
        assert(all.skip(1) =~= think.skip(1).push(last));
        push_keeps_any(think.skip(1), last, i);
    }
}

proof fn push_keeps_time(think: Seq<ThinkTiming>, last: ThinkTiming, i: int)
    requires
        last.head != i,
    ensures
        think_time(think.push(last), i, 0) == think_time(think, i, 0),
{
    push_keeps_any(think, last, i);
}

/// Where the entries but those at `head` are steady and `head` lies beyond,
/// nothing is live at or above `i`, or it stood at `head`.
proof fn others_steady(think: Seq<ThinkTiming>, head: usize, i: int)
    requires
        i < head,
    ensures
        steady(other_blocks(think, head), i) ==> steady(think, i),
    decreases think.len(),
{
    if think.len() > 0 && steady(other_blocks(think, head), i) {
        let rest = think.drop_last();
        let others = other_blocks(think, head);
        let inner = other_blocks(rest, head);
        assert(steady(inner, i)) by {
            assert forall|k: int| 0 <= k < inner.len() && (
            #[trigger] inner[k]).live implies inner[k].head > i by {
                assert(others[k] == inner[k]);
            }
        }
        others_steady(rest, head, i);
        assert forall|k: int| 0 <= k < think.len() && (
        #[trigger] think[k]).live implies think[k].head > i by {
            if k < rest.len() {
                assert(rest[k] == think[k]);
            } else if think[k].head != head {
                assert(others[others.len() - 1] == think[k]);
            }
        }
    }
}

proof fn live_update_keeps_time(think: Seq<ThinkTiming>, at: int, timing: ThinkTiming, i: int)
    requires
        0 <= at < think.len(),
        timing.head == think[at].head,
        timing.head > i,
    ensures
        think_time(think.update(at, timing), i, 0) == think_time(think, i, 0),
    decreases think.len(),
{
    let after = think.update(at, timing);
    if at == 0 {
        assert(after.skip(1) =~= think.skip(1));
    } else if think[0].head != i {
        assert(after.skip(1) =~= think.skip(1).update(at - 1, timing));
        live_update_keeps_time(think.skip(1), at - 1, timing, i);
    }
}

proof fn run_head_range(cells: Seq<LineView>, i: int)
    requires
        0 <= i,
    ensures
        0 <= run_head(cells, i) <= i,
    decreases i,
{
    if i > 0 && cells[i - 1].kind == LineKind::Reasoning {
        run_head_range(cells, i - 1);
    }
}

proof fn run_head_prefix(a: Seq<LineView>, b: Seq<LineView>, i: int)
    requires
        forall|k: int| 0 <= k <= i ==> a[k] == b[k],
        0 <= i,
    ensures
        run_head(a, i) == run_head(b, i),
    decreases i,
{
    if i > 0 {
        assert(a[i - 1] == b[i - 1]);
        run_head_prefix(a, b, i - 1);
    }
}

/// The rows of a cell depend on the cells and folds up to it, not on what comes
/// after.
pub proof fn prefix_decides_rows(
    a: Seq<LineView>,
    b: Seq<LineView>,
    i: int,
    width: nat,
    a_folds: Seq<bool>,
    b_folds: Seq<bool>,
    elapsed: Option<u64>,
)
    requires
        0 <= i,
        forall|k: int| 0 <= k <= i ==> a[k] == b[k],
        forall|k: int| 0 <= k <= i ==> is_folded(a_folds, k) == is_folded(b_folds, k),
    ensures
        cell_rows(a, i, width, a_folds, elapsed) == cell_rows(b, i, width, b_folds, elapsed),
{
    run_head_prefix(a, b, i);
    run_head_range(a, i);
    assert(is_folded(a_folds, run_head(a, i)) == is_folded(b_folds, run_head(a, i)));
    if i > 0 {
        assert(a[i - 1] == b[i - 1]);
    }
    assert(a[i] == b[i]);
}

// ---------------------------------------------------------------------------
// Visible windows
// ---------------------------------------------------------------------------

/// One display row after wrapping a cell.
#[derive(Clone, Debug, PartialEq, Eq)]
pub struct VisibleRow {
    pub cell_index: usize,
    pub row_in_cell: usize,
    pub kind: LineKind,
    pub tone: Tone,
    /// Block role of the answer line this fragment came from.
    pub role: BlockRole,
    /// Baked presentation spans, where the row carries its presentation.
    pub spans: Option<Vec<ProseSpan>>,
    /// The fenced-body line-number slot.
    pub code_line: Option<String>,
    pub text: String,
}

/// A [`VisibleRow`] as a mathematical value.
pub struct VisibleView {
    pub cell_index: usize,
    pub row_in_cell: usize,
    pub kind: LineKind,
    pub tone: Tone,
    pub role: RoleView,
    pub spans: Option<Seq<SpanView>>,
    pub code_line: Option<Seq<char>>,
    pub text: Seq<char>,
}

impl DeepView for VisibleRow {
    type V = VisibleView;

    open spec fn deep_view(&self) -> VisibleView {
        VisibleView {
            cell_index: self.cell_index,
            row_in_cell: self.row_in_cell,
            kind: self.kind,
            tone: self.tone,
            role: self.role.deep_view(),
            spans: self.spans.deep_view(),
            code_line: self.code_line.deep_view(),
            text: self.text@,
        }
    }
}

/// Visible transcript window at a given width and height.
#[derive(Clone, Debug, PartialEq, Eq)]
pub struct VisibleSlice {
    pub rows: Vec<VisibleRow>,
    pub total_rows: usize,
    pub follow_bottom: bool,
    pub at_top: bool,
    pub at_bottom: bool,
}

/// A [`VisibleSlice`] as a mathematical value.
pub struct SliceView {
    pub rows: Seq<VisibleView>,
    pub total_rows: nat,
    pub follow_bottom: bool,
    pub at_top: bool,
    pub at_bottom: bool,
}

impl DeepView for VisibleSlice {
    type V = SliceView;

    open spec fn deep_view(&self) -> SliceView {
        SliceView {
            rows: self.rows.deep_view(),
            total_rows: self.total_rows as nat,
            follow_bottom: self.follow_bottom,
            at_top: self.at_top,
            at_bottom: self.at_bottom,
        }
    }
}

/// The rows of each cell, counted.
pub open spec fn row_heights(rows: Seq<Seq<RowView>>) -> Seq<nat> {
    rows.map_values(|r: Seq<RowView>| r.len())
}

/// The counted rows are those of the values.
pub proof fn heights_agree(wrapped: &Vec<Vec<ProjectedRow>>)
    ensures
        heights(wrapped@) == row_heights(wrapped.deep_view()),
{
    assert(heights(wrapped@) =~= row_heights(wrapped.deep_view()));
}

/// A row with its place and its cell's kind; its own wash wins over the cell's
/// tone.
pub open spec fn shown_row(cell: LineView, row: RowView, index: int, at: int) -> VisibleView {
    VisibleView {
        cell_index: index as usize,
        row_in_cell: at as usize,
        kind: cell.kind,
        tone: match row.tone {
            Some(tone) => tone,
            None => cell.tone,
        },
        role: row.role,
        spans: row.spans,
        code_line: row.code_line,
        text: row.text,
    }
}

/// Up to `height` rows from a position on.
pub open spec fn collected(
    cells: Seq<LineView>,
    rows: Seq<Seq<RowView>>,
    cell: int,
    row: int,
    height: nat,
) -> Seq<VisibleView>
    decreases rows.len() - cell, height,
{
    if height == 0 || cell < 0 || row < 0 || cell >= cells.len() || cell >= rows.len() {
        Seq::empty()
    } else if row < rows[cell].len() {
        seq![shown_row(cells[cell], rows[cell][row], cell, row)] + collected(
            cells,
            rows,
            cell,
            row + 1,
            (height - 1) as nat,
        )
    } else {
        collected(cells, rows, cell + 1, 0, height)
    }
}

/// The visible window of wrapped cells.
pub open spec fn slice_for(
    cells: Seq<LineView>,
    rows: Seq<Seq<RowView>>,
    width: nat,
    height: nat,
    scroll: ScrollState,
) -> SliceView {
    if width == 0 {
        SliceView {
            rows: Seq::empty(),
            total_rows: 0,
            follow_bottom: scroll.follow_bottom,
            at_top: true,
            at_bottom: true,
        }
    } else if height == 0 {
        SliceView {
            rows: Seq::empty(),
            total_rows: cap(total(row_heights(rows))),
            follow_bottom: scroll.follow_bottom,
            at_top: true,
            at_bottom: true,
        }
    } else {
        let start = window_start(scroll, row_heights(rows), height);
        SliceView {
            rows: collected(cells, rows, start.0, start.1, height),
            total_rows: cap(total(row_heights(rows))),
            follow_bottom: scroll.follow_bottom,
            at_top: start == (0int, 0int),
            at_bottom: reaches_tail(row_heights(rows), start.0, start.1, height),
        }
    }
}

fn collect_rows(
    cells: &Vec<TranscriptLine>,
    wrapped: &Vec<Vec<ProjectedRow>>,
    start_cell: usize,
    start_row: usize,
    height: usize,
) -> (out: Vec<VisibleRow>)
    ensures
        out.deep_view() == collected(
            cells.deep_view(),
            wrapped.deep_view(),
            start_cell as int,
            start_row as int,
            height as nat,
        ),
{
    let ghost lines = cells.deep_view();
    let ghost rows = wrapped.deep_view();
    let ghost expected = collected(
        lines,
        rows,
        start_cell as int,
        start_row as int,
        height as nat,
    );
    let mut out: Vec<VisibleRow> = Vec::new();
    let mut cell: usize = start_cell;
    let mut row: usize = start_row;
    proof {
        assert(out.deep_view() + expected =~= expected);
    }
    while out.len() < height && cell < cells.len() && cell < wrapped.len()
        invariant
            out.len() <= height,
            lines == cells.deep_view(),
            rows == wrapped.deep_view(),
            out.deep_view() + collected(
                lines,
                rows,
                cell as int,
                row as int,
                (height - out.len()) as nat,
            ) == expected,
        decreases wrapped.len() - cell, height - out.len(),
    {
        assert(rows[cell as int].len() == wrapped@[cell as int]@.len());
        if row < wrapped[cell].len() {
            let source = &wrapped[cell][row];
            let ghost before = out.deep_view();
            let copy = source.copy();
            let item = VisibleRow {
                cell_index: cell,
                row_in_cell: row,
                kind: cells[cell].kind,
                tone: match source.tone {
                    Some(tone) => tone,
                    None => cells[cell].tone,
                },
                role: copy.role,
                spans: copy.spans,
                code_line: copy.code_line,
                text: copy.text,
            };
            let ghost left = (height - out.len()) as nat;
            let ghost rest = collected(lines, rows, cell as int, row + 1, (left - 1) as nat);
            out.push(item);
            proof {
                assert(rows[cell as int][row as int] == wrapped@[cell as int]@[row as int].deep_view());
                assert(item.deep_view() == shown_row(
                    lines[cell as int],
                    rows[cell as int][row as int],
                    cell as int,
                    row as int,
                ));
                assert(out.deep_view() =~= before.push(item.deep_view()));
                assert(before + (seq![item.deep_view()] + rest) =~= out.deep_view() + rest);
            }
            row += 1;
        } else {
            cell += 1;
            row = 0;
        }
    }
    proof {
        assert(out.deep_view() + Seq::<VisibleView>::empty() =~= out.deep_view());
    }
    out
}

/// The visible window of wrapped cells.
pub fn slice_from_wraps(
    cells: &Vec<TranscriptLine>,
    wrapped: &Vec<Vec<ProjectedRow>>,
    width: usize,
    height: usize,
    scroll: &ScrollState,
) -> (slice: VisibleSlice)
    ensures
        slice.deep_view() == slice_for(
            cells.deep_view(),
            wrapped.deep_view(),
            width as nat,
            height as nat,
            *scroll,
        ),
{
    proof {
        heights_agree(wrapped);
    }
    if width == 0 || height == 0 {
        let rows: Vec<VisibleRow> = Vec::new();
        proof {
            assert(rows.deep_view() =~= Seq::<VisibleView>::empty());
        }
        return VisibleSlice {
            rows,
            total_rows: if width == 0 {
                0
            } else {
                row_count(wrapped)
            },
            follow_bottom: scroll.follow_bottom(),
            at_top: true,
            at_bottom: true,
        };
    }
    let start = scroll.start(wrapped, height);
    VisibleSlice {
        rows: collect_rows(cells, wrapped, start.0, start.1, height),
        total_rows: row_count(wrapped),
        follow_bottom: scroll.follow_bottom(),
        at_top: start.0 == 0 && start.1 == 0,
        at_bottom: window_reaches_tail(wrapped, start.0, start.1, height),
    }
}

// ---------------------------------------------------------------------------
// Cells without a store
// ---------------------------------------------------------------------------

/// The rows of each cell on its own, cards and think blocks unfolded.
pub open spec fn all_rows(cells: Seq<LineView>, width: nat) -> Seq<Seq<RowView>> {
    Seq::new(cells.len(), |i: int| line_rows(cells[i], width, kind_before(cells, i)))
}

/// Wraps every cell on its own.
pub fn wrap_all(cells: &Vec<TranscriptLine>, width: usize) -> (wrapped: Vec<Vec<ProjectedRow>>)
    ensures
        wrapped.deep_view() == all_rows(cells.deep_view(), width as nat),
{
    let ghost lines = cells.deep_view();
    let mut wrapped: Vec<Vec<ProjectedRow>> = Vec::new();
    let mut i: usize = 0;
    while i < cells.len()
        invariant
            i <= cells.len(),
            lines == cells.deep_view(),
            wrapped.len() == i,
            forall|k: int|
                0 <= k < i ==> (#[trigger] wrapped@[k]).deep_view() == line_rows(
                    lines[k],
                    width as nat,
                    kind_before(lines, k),
                ),
        decreases cells.len() - i,
    {
        let prev = if i == 0 {
            None
        } else {
            Some(cells[i - 1].kind)
        };
        wrapped.push(wrap_line(&cells[i], width, prev));
        i += 1;
    }
    proof {
        assert(wrapped.deep_view() =~= all_rows(lines, width as nat));
    }
    wrapped
}

/// The visible window of a plain list of cells. Zero width or height yields no
/// rows; the total is still counted where there is a width.
pub fn visible_slice(
    cells: &Vec<TranscriptLine>,
    width: usize,
    height: usize,
    scroll: &ScrollState,
) -> (slice: VisibleSlice)
    ensures
        slice.deep_view() == slice_for(
            cells.deep_view(),
            all_rows(cells.deep_view(), width as nat),
            width as nat,
            height as nat,
            *scroll,
        ),
{
    slice_from_wraps(cells, &wrap_all(cells, width), width, height, scroll)
}

impl ScrollState {
    /// Scrolls over a plain list of cells.
    pub fn scroll_rows(
        &mut self,
        cells: &Vec<TranscriptLine>,
        width: usize,
        height: usize,
        delta: isize,
    )
        ensures
            *final(self) == (if width == 0 {
                *old(self)
            } else {
                scrolled(
                    *old(self),
                    row_heights(all_rows(cells.deep_view(), width as nat)),
                    height as nat,
                    delta,
                )
            }),
    {
        if width == 0 {
            return ;
        }
        let wrapped = wrap_all(cells, width);
        proof {
            heights_agree(&wrapped);
        }
        self.scroll_wrapped(&wrapped, height, delta);
    }

    /// Stop following without moving the current visible window.
    pub fn unfollow_keep_view(
        &mut self,
        cells: &Vec<TranscriptLine>,
        width: usize,
        height: usize,
    )
        ensures
            *final(self) == (if !old(self).follow_bottom {
                *old(self)
            } else if width == 0 || height == 0 || cells@.len() == 0 {
                pinned((0, 0))
            } else {
                let at = tail_start(
                    row_heights(all_rows(cells.deep_view(), width as nat)),
                    height as nat,
                );
                pinned((at.0 as usize, at.1 as usize))
            }),
    {
        if !self.follow_bottom {
            return ;
        }
        if width == 0 {
            *self = ScrollState { follow_bottom: false, pin: Some((0, 0)) };
            return ;
        }
        let wrapped = wrap_all(cells, width);
        proof {
            heights_agree(&wrapped);
        }
        self.unfollow_keep_wrapped(&wrapped, height);
    }
}

// ---------------------------------------------------------------------------
// Laws
// ---------------------------------------------------------------------------

/// A window never shows more rows than its height.
pub proof fn window_fits_its_height(
    cells: Seq<LineView>,
    rows: Seq<Seq<RowView>>,
    cell: int,
    row: int,
    height: nat,
)
    ensures
        collected(cells, rows, cell, row, height).len() <= height,
    decreases rows.len() - cell, height,
{
    if height == 0 || cell < 0 || row < 0 || cell >= cells.len() || cell >= rows.len() {
    } else if row < rows[cell].len() {
        window_fits_its_height(cells, rows, cell, row + 1, (height - 1) as nat);
    } else {
        window_fits_its_height(cells, rows, cell + 1, 0, height);
    }
}

/// New cells below do not move what a pinned window shows: a window that is
/// full shows the same rows however many cells are appended.
pub proof fn appending_does_not_move_the_window(
    cells: Seq<LineView>,
    rows: Seq<Seq<RowView>>,
    more_cells: Seq<LineView>,
    more_rows: Seq<Seq<RowView>>,
    cell: int,
    row: int,
    height: nat,
)
    requires
        cells.len() == rows.len(),
        more_cells.len() == more_rows.len(),
        0 <= cell,
        0 <= row,
        rows_after(row_heights(rows), cell, row) >= height,
    ensures
        collected(cells + more_cells, rows + more_rows, cell, row, height) == collected(
            cells,
            rows,
            cell,
            row,
            height,
        ),
    decreases rows.len() - cell, height,
{
    let all_cells = cells + more_cells;
    let all = rows + more_rows;
    let h = row_heights(rows);
    if height == 0 {
    } else if cell >= rows.len() {
    } else if row < rows[cell].len() {
        assert(h[cell] == rows[cell].len());
        assert(all[cell] == rows[cell]);
        assert(all_cells[cell] == cells[cell]);
        appending_does_not_move_the_window(
            cells,
            rows,
            more_cells,
            more_rows,
            cell,
            row + 1,
            (height - 1) as nat,
        );
    } else {
        assert(h[cell] == rows[cell].len());
        assert(all[cell] == rows[cell]);
        if cell + 1 < rows.len() {
            let rest = h.skip(cell + 1);
            assert(rest =~= seq![h[cell + 1]] + h.skip(cell + 2));
            first_total(h[cell + 1], h.skip(cell + 2));
        } else {
            assert(h.skip(cell + 1) =~= Seq::<nat>::empty());
        }
        appending_does_not_move_the_window(
            cells,
            rows,
            more_cells,
            more_rows,
            cell + 1,
            0,
            height,
        );
    }
}

proof fn first_total(first: nat, rest: Seq<nat>)
    ensures
        total(seq![first] + rest) == first + total(rest),
    decreases rest.len(),
{
    let all = seq![first] + rest;
    if rest.len() == 0 {
        assert(all.drop_last() =~= Seq::<nat>::empty());
        reveal_with_fuel(total, 2);
    } else {
        assert(all.drop_last() =~= seq![first] + rest.drop_last());
        first_total(first, rest.drop_last());
    }
}

/// The rows of every cell from `cell` on, one below the other, each with its
/// cell's place and kind.
pub open spec fn stacked(
    cells: Seq<LineView>,
    rows: Seq<Seq<RowView>>,
    cell: int,
) -> Seq<VisibleView>
    decreases rows.len() - cell,
{
    if cell < 0 || cell >= rows.len() {
        Seq::empty()
    } else {
        Seq::new(
            rows[cell].len(),
            |row: int|
                VisibleView {
                    cell_index: cell as usize,
                    row_in_cell: row as usize,
                    kind: cells[cell].kind,
                    tone: if rows[cell][row].tone is Some {
                        rows[cell][row].tone.unwrap()
                    } else {
                        cells[cell].tone
                    },
                    role: rows[cell][row].role,
                    spans: rows[cell][row].spans,
                    code_line: rows[cell][row].code_line,
                    text: rows[cell][row].text,
                },
        ) + stacked(cells, rows, cell + 1)
    }
}

/// The window is a stretch of the transcript: from its first row on, the rows of
/// all cells in order without one left out, as many as the window holds or as
/// there are.
pub proof fn the_window_is_a_stretch(
    cells: Seq<LineView>,
    rows: Seq<Seq<RowView>>,
    cell: int,
    row: int,
    height: nat,
)
    requires
        cells.len() == rows.len(),
        0 <= cell < rows.len(),
        0 <= row <= rows[cell].len(),
    ensures
        ({
            let below = stacked(cells, rows, cell).skip(row);
            collected(cells, rows, cell, row, height) == if below.len() <= height {
                below
            } else {
                below.take(height as int)
            }
        }),
    decreases rows.len() - cell, height,
{
    let all = stacked(cells, rows, cell);
    let below = all.skip(row);
    let found = collected(cells, rows, cell, row, height);
    let next = stacked(cells, rows, cell + 1);
    if height == 0 {
        assert(found =~= below.take(0));
        if below.len() == 0 {
            assert(found =~= below);
        }
    } else if row < rows[cell].len() {
        the_window_is_a_stretch(cells, rows, cell, row + 1, (height - 1) as nat);
        let rest = all.skip(row + 1);
        assert(below =~= seq![all[row]] + rest);
        assert(all[row] == shown_row(cells[cell], rows[cell][row], cell, row));
        if below.len() <= height {
            assert(found =~= below);
        } else {
            assert(found =~= below.take(height as int));
        }
    } else {
        assert(below =~= next);
        if cell + 1 < rows.len() {
            the_window_is_a_stretch(cells, rows, cell + 1, 0, height);
            assert(next.skip(0) =~= next);
        } else {
            assert(next =~= Seq::<VisibleView>::empty());
            assert(collected(cells, rows, cell + 1, 0, height) =~= Seq::<VisibleView>::empty());
            assert(below.len() == 0);
            assert(found =~= below);
        }
    }
}

/// A think block is as long as its cells follow each other: its head is a cell
/// with none of it above, and everything between is part of it.
pub proof fn think_blocks_are_contiguous(cells: Seq<LineView>, i: int)
    requires
        0 <= i < cells.len(),
    ensures
        0 <= run_head(cells, i) <= i,
        forall|k: int|
            run_head(cells, i) <= k < i ==> (#[trigger] cells[k]).kind == LineKind::Reasoning,
        run_head(cells, i) > 0 ==> cells[run_head(cells, i) - 1].kind != LineKind::Reasoning,
    decreases i,
{
    if i > 0 && cells[i - 1].kind == LineKind::Reasoning {
        think_blocks_are_contiguous(cells, i - 1);
    }
}

/// Folding a think block hides all of its cells but the header, and nothing
/// else; unfolded, each of them shows its rows.
pub proof fn folding_hides_the_thinking(
    cells: Seq<LineView>,
    i: int,
    width: nat,
    folds: Seq<bool>,
    elapsed: Option<u64>,
)
    requires
        0 <= i < cells.len(),
        cells[i].kind == LineKind::Reasoning,
    ensures
        cells[i].text == "think"@ ==> cell_rows(cells, i, width, folds, elapsed) == seq![
            think_header(elapsed, width),
        ],
        cells[i].text != "think"@ && is_folded(folds, run_head(cells, i)) ==> cell_rows(
            cells,
            i,
            width,
            folds,
            elapsed,
        ).len() == 0,
        cells[i].text != "think"@ && !is_folded(folds, run_head(cells, i)) ==> cell_rows(
            cells,
            i,
            width,
            folds,
            elapsed,
        ) == line_rows(cells[i], width, kind_before(cells, i)),
{
}

/// A card shows its header and its body, folded or not; neither another card's
/// fold nor a think block's time changes it.
pub proof fn cards_show_header_and_body(
    cells: Seq<LineView>,
    i: int,
    width: nat,
    folds: Seq<bool>,
    elapsed: Option<u64>,
)
    requires
        0 <= i < cells.len(),
        cells[i].kind == LineKind::Tool,
        cells[i].header is Some,
    ensures
        cells[i].body is None ==> cell_rows(cells, i, width, folds, elapsed) == seq![
            header_row(cells[i].header.unwrap(), width),
        ],
        cells[i].body is Some ==> cell_rows(cells, i, width, folds, elapsed) == seq![
            header_row(cells[i].header.unwrap(), width),
        ] + body_rows(cells[i].body.unwrap(), width, 0 <= i < folds.len() && folds[i]),
{
}

/// A blank row is set above an answer that follows a tool or another answer and
/// above a card's title that does not follow what the user said; nothing is set
/// above the first cell, and nowhere more than one.
pub proof fn cells_are_set_apart(prev: Option<LineKind>, cell: LineView, width: nat)
    requires
        cell.header is None,
        cell.body is None,
        kind_rows(cell, width).len() > 0,
    ensures
        ({
            let rows = line_rows(cell, width, prev);
            let apart = seq![plain_row(Seq::empty())] + kind_rows(cell, width);
            let close = kind_rows(cell, width);
            &&& prev is None ==> rows == close
            &&& cell.kind == LineKind::Answer && (prev == Some(LineKind::Tool) || prev == Some(
                LineKind::Answer,
            )) ==> rows == apart
            &&& cell.kind == LineKind::Answer && prev == Some(LineKind::User) ==> rows == close
            &&& cell.kind == LineKind::Tool && cell.tone == Tone::Title && prev is Some && prev
                != Some(LineKind::User) ==> rows == apart
            &&& cell.kind == LineKind::Tool && (cell.tone != Tone::Title || prev == Some(
                LineKind::User,
            )) ==> rows == close
            &&& cell.kind != LineKind::Answer && cell.kind != LineKind::Tool ==> rows == close
        }),
{
}

/// Sealing stops the clocks: from then on every block tells the time it told at
/// that moment.
pub proof fn sealing_stops_the_clocks(think: Seq<ThinkTiming>, head: int, at: u64, later: u64)
    ensures
        think_time(sealed(think, at), head, later) == think_time(think, head, at),
        forall|k: int| 0 <= k < sealed(think, at).len() ==> !(#[trigger] sealed(think, at)[k]).live,
    decreases think.len(),
{
    if think.len() > 0 && think[0].head != head {
        sealing_stops_the_clocks(think.skip(1), head, at, later);
        assert(sealed(think, at).skip(1) =~= sealed(think.skip(1), at));
    }
}

/// A block that streams tells the time since it began, one that ended the time it
/// took.
pub proof fn blocks_tell_their_time(block: ThinkTiming, now: u64)
    ensures
        block.live && now >= block.started ==> think_time(seq![block], block.head as int, now)
            == Some((now - block.started) as u64),
        block.live && now < block.started ==> think_time(seq![block], block.head as int, now)
            == Some(0u64),
        !block.live ==> think_time(seq![block], block.head as int, now) == Some(block.elapsed),
{
}

/// Taking a block out leaves the times of all others as they are.
pub proof fn other_blocks_keep_their_time(
    think: Seq<ThinkTiming>,
    head: usize,
    other: int,
    now: u64,
)
    ensures
        other != head ==> think_time(other_blocks(think, head), other, now) == think_time(
            think,
            other,
            now,
        ),
        think_time(other_blocks(think, head), head as int, now) is None,
    decreases think.len(),
{
    if think.len() > 0 {
        let before = think.drop_last();
        other_blocks_keep_their_time(before, head, other, now);
        last_block_decides(before, think.last(), other, now);
        last_block_decides(other_blocks(before, head), think.last(), other, now);
        last_block_decides(other_blocks(before, head), think.last(), head as int, now);
        assert(before.push(think.last()) =~= think);
    }
}

proof fn last_block_decides(before: Seq<ThinkTiming>, last: ThinkTiming, head: int, now: u64)
    ensures
        think_time(before.push(last), head, now) == match think_time(before, head, now) {
            Some(time) => Some(time),
            None => if last.head == head {
                Some(timing_elapsed(last, now))
            } else {
                None
            },
        },
    decreases before.len(),
{
    let all = before.push(last);
    if before.len() == 0 {
        assert(all.skip(1) =~= Seq::<ThinkTiming>::empty());
        assert(think_time(all.skip(1), head, now) is None);
    } else {
        assert(all.skip(1) =~= before.skip(1).push(last));
        last_block_decides(before.skip(1), last, head, now);
    }
}

/// What is settled lies above the open cell and above every block that streams.
pub proof fn settled_cells_do_not_change(
    len: nat,
    open: Option<usize>,
    think: Seq<ThinkTiming>,
    k: int,
)
    ensures
        open is None ==> settled_upto(len, open, think) <= len,
        open is Some ==> settled_upto(len, open, think) <= open.unwrap(),
        0 <= k < think.len() && think[k].live ==> settled_upto(len, open, think) <= think[k].head,
        (forall|j: int| 0 <= j < think.len() ==> !(#[trigger] think[j]).live) && open is None
            ==> settled_upto(len, open, think) == len,
    decreases think.len(),
{
    if think.len() > 0 {
        let before = think.drop_last();
        settled_cells_do_not_change(len, open, before, k);
        if forall|j: int| 0 <= j < think.len() ==> !(#[trigger] think[j]).live {
            assert forall|j: int| 0 <= j < before.len() implies !(#[trigger] before[j]).live by {
                assert(before[j] == think[j]);
            }
            assert(!think[think.len() - 1].live);
        }
    }
}

} // verus!
