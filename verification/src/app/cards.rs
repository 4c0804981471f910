//! Tool cards and think headers as display rows.

use vstd::prelude::*;

use super::prose::flow::{
    glyphs_of, spans_text_add, wrap_spans, wrapped_spans, wrapped_spans_fit,
};
use super::prose::style::{
    cap, in_color, plain_style, span, spans_cells, spans_text, spans_width, styled_row, BlockRole,
    ProjectedRow, ProseColor, ProseSpan, ProseStyle, RoleView, RowView, SpanView,
};
use super::run_state::{format_think_elapsed, think_elapsed_text};
use super::text;
use super::text::{
    cell_width, middled, pieces_within, takes_at_most, truncated, weighed, ClusterView,
};
use super::transcript::{
    BodyView, CardBody, CardHeader, HeaderView, PieceView, SegColor, SegSpan, SegView, Tone,
};
use crate::strs;
use crate::strs::{decimal, numeral_value, occurs, occurs_at, repeated};

verus! {

/// The prose color of a card segment.
pub open spec fn prose_color(color: SegColor) -> ProseColor {
    match color {
        SegColor::Default => ProseColor::Default,
        SegColor::Gray => ProseColor::Meta,
        SegColor::DarkGray => ProseColor::DarkGray,
        SegColor::Green => ProseColor::Green,
        SegColor::Yellow => ProseColor::Yellow,
        SegColor::Orange => ProseColor::Code,
        SegColor::Red => ProseColor::Red,
        SegColor::Border => ProseColor::Border,
    }
}

/// Converts a card segment color to the shared prose color vocabulary.
pub fn seg_color(color: SegColor) -> (result: ProseColor)
    ensures
        result == prose_color(color),
{
    match color {
        SegColor::Default => ProseColor::Default,
        SegColor::Gray => ProseColor::Meta,
        SegColor::DarkGray => ProseColor::DarkGray,
        SegColor::Green => ProseColor::Green,
        SegColor::Yellow => ProseColor::Yellow,
        SegColor::Orange => ProseColor::Code,
        SegColor::Red => ProseColor::Red,
        SegColor::Border => ProseColor::Border,
    }
}

/// A card segment as a baked span.
pub open spec fn of_seg(seg: SegView) -> SpanView {
    span(seg.text, ProseStyle { bold: seg.bold, ..in_color(prose_color(seg.color)) })
}

/// A header piece as a baked span.
pub open spec fn of_piece(piece: PieceView) -> SpanView {
    span(piece.text, ProseStyle { bold: piece.bold, ..in_color(prose_color(piece.color)) })
}

fn card_span(text: &str, color: SegColor, bold: bool) -> (result: ProseSpan)
    ensures
        result.deep_view() == span(
            text@,
            ProseStyle { bold, ..in_color(prose_color(color)) },
        ),
{
    ProseSpan::of(text, ProseStyle::default().colored(seg_color(color)).bold_if(bold))
}

fn push_segs(spans: &mut Vec<ProseSpan>, segs: &Vec<SegSpan>)
    ensures
        final(spans).deep_view() == old(spans).deep_view() + segs.deep_view().map_values(
            |s: SegView| of_seg(s),
        ),
{
    let ghost all = segs.deep_view();
    let ghost start = spans.deep_view();
    let ghost added = all.map_values(|s: SegView| of_seg(s));
    let mut i: usize = 0;
    proof {
        assert(start + added.take(0) =~= start);
    }
    while i < segs.len()
        invariant
            i <= segs.len(),
            all == segs.deep_view(),
            added == all.map_values(|s: SegView| of_seg(s)),
            spans.deep_view() == start + added.take(i as int),
        decreases segs.len() - i,
    {
        let ghost before = spans.deep_view();
        let item = card_span(segs[i].text.as_str(), segs[i].color, segs[i].bold);
        spans.push(item);
        proof {
            assert(spans.deep_view() =~= before.push(item.deep_view()));
            assert(item.deep_view() == added[i as int]);
            assert(start + added.take(i as int + 1) =~= before.push(added[i as int]));
        }
        i += 1;
    }
    proof {
        assert(added.take(i as int) =~= added);
    }
}

fn push_item(spans: &mut Vec<ProseSpan>, item: ProseSpan)
    ensures
        final(spans).deep_view() == old(spans).deep_view().push(item.deep_view()),
{
    let ghost before = spans.deep_view();
    spans.push(item);
    proof {
        assert(spans.deep_view() =~= before.push(item.deep_view()));
    }
}

// ---------------------------------------------------------------------------
// The header row
// ---------------------------------------------------------------------------

/// A single blank in the primary style.
pub open spec fn blank_span() -> SpanView {
    span(" "@, plain_style())
}

/// The cells of a run of segments.
pub open spec fn segs_cells(segs: Seq<SegView>) -> nat
    decreases segs.len(),
{
    if segs.len() == 0 {
        0
    } else {
        segs_cells(segs.drop_last()) + cell_width(segs.last().text) as nat
    }
}

/// What of a header is shown: the target as given, the statistics, the time.
pub struct HeaderFit {
    pub target: Option<Seq<char>>,
    pub stats: Option<Seq<SegView>>,
    pub time: Option<PieceView>,
}

/// The cells of everything that is shown, each part with its blank.
pub open spec fn shown_cells(header: HeaderView, fit: HeaderFit) -> nat {
    let lead = cell_width(header.bar.text) as nat + 1 + cell_width(header.action.text) as nat;
    let target = match fit.target {
        Some(text) => 1 + cell_width(text) as nat,
        None => 0,
    };
    let stats = match fit.stats {
        Some(segs) => 1 + segs_cells(segs),
        None => 0,
    };
    let time = match fit.time {
        Some(piece) => 1 + cell_width(piece.text) as nat,
        None => 0,
    };
    lead + target + stats + cell_width(header.status.text) as nat + time
}

/// The dots left between content and status: what the shown parts, two cells of
/// gap and two of margin leave of the width.
pub open spec fn leader(header: HeaderView, fit: HeaderFit, width: nat) -> nat {
    if width > shown_cells(header, fit) + 4 {
        (width - shown_cells(header, fit) - 4) as nat
    } else {
        0
    }
}

/// The header with its whole target, with or without statistics and time.
pub open spec fn with_parts(header: HeaderView, stats: bool, time: bool) -> HeaderFit {
    HeaderFit {
        target: match header.target {
            Some(piece) => Some(piece.text),
            None => None,
        },
        stats: if stats {
            header.stats
        } else {
            None
        },
        time: if time {
            header.time
        } else {
            None
        },
    }
}

/// The cells left for a target beside the other parts, its blank, a single dot,
/// the gap and the margin.
pub open spec fn target_room(header: HeaderView, fit: HeaderFit, width: nat) -> nat {
    let others = shown_cells(header, HeaderFit { target: None, ..fit }) + 6;
    if width > others {
        (width - others) as nat
    } else {
        0
    }
}

/// The fit with its target cut in the middle to the room there is for it; with
/// no room at all it goes.
pub open spec fn target_cut(header: HeaderView, fit: HeaderFit, width: nat) -> HeaderFit {
    let room = target_room(header, fit, width);
    match fit.target {
        Some(text) => if cell_width(text) <= room {
            fit
        } else if room == 0 {
            HeaderFit { target: None, ..fit }
        } else {
            HeaderFit { target: Some(middled(text, room)), ..fit }
        },
        None => fit,
    }
}

/// Whether cutting the target makes room for a dot and leaves both its ends
/// around the mark.
pub open spec fn cut_suffices(header: HeaderView, fit: HeaderFit, width: nat) -> bool {
    target_room(header, fit, width) >= 3 && leader(
        header,
        target_cut(header, fit, width),
        width,
    ) >= 1
}

/// The degradation ladder: cut the target, drop the statistics, drop the time;
/// the status is never dropped.
pub open spec fn header_fit(header: HeaderView, width: nat) -> HeaderFit {
    let whole = with_parts(header, true, true);
    let bare = with_parts(header, false, true);
    if leader(header, whole, width) >= 1 {
        whole
    } else if cut_suffices(header, whole, width) {
        target_cut(header, whole, width)
    } else if leader(header, bare, width) >= 1 {
        bare
    } else if cut_suffices(header, bare, width) {
        target_cut(header, bare, width)
    } else {
        target_cut(header, with_parts(header, false, false), width)
    }
}

/// The spans of the header row.
pub open spec fn header_spans(header: HeaderView, fit: HeaderFit, width: nat) -> Seq<SpanView> {
    let lead = seq![of_piece(header.bar), blank_span(), of_piece(header.action)];
    let targeted = match (header.target, fit.target) {
        (Some(piece), Some(text)) => lead.push(blank_span()).push(
            of_piece(PieceView { text, ..piece }),
        ),
        _ => lead,
    };
    let counted = match fit.stats {
        Some(segs) => targeted.push(blank_span()) + segs.map_values(|s: SegView| of_seg(s)),
        None => targeted,
    };
    let dots = leader(header, fit, width);
    let led = if dots > 0 {
        counted.push(blank_span()).push(
            span(repeated('·', dots), in_color(ProseColor::Border)),
        ).push(blank_span())
    } else {
        counted
    };
    let stated = led.push(of_piece(header.status));
    match fit.time {
        Some(piece) => stated.push(blank_span()).push(of_piece(piece)),
        None => stated,
    }
}

/// What stands before everything else in a header: the bar and the action.
pub open spec fn header_lead(header: HeaderView) -> Seq<char> {
    header.bar.text + " "@ + header.action.text
}

/// The header as a last resort: bar and action clipped to what the status leaves
/// of the width, and the whole row where the status alone is wider.
pub open spec fn clipped_spans(header: HeaderView, row: Seq<char>, width: nat) -> Seq<SpanView> {
    let status = cell_width(header.status.text) as nat;
    if status > width {
        seq![span(truncated(row, width), plain_style())]
    } else {
        seq![
            span(truncated(header_lead(header), (width - status) as nat), plain_style()),
            of_piece(header.status),
        ]
    }
}

/// The header row, clipped as a last resort.
pub open spec fn header_row(header: HeaderView, width: nat) -> RowView {
    if width == 0 {
        styled_row(RoleView::Plain, Seq::empty())
    } else {
        let row = styled_row(
            RoleView::Plain,
            header_spans(header, header_fit(header, width), width),
        );
        if cell_width(row.text) > width {
            styled_row(RoleView::Plain, clipped_spans(header, row.text, width))
        } else {
            row
        }
    }
}

fn segs_width(segs: &Vec<SegSpan>) -> (cells: usize)
    ensures
        cells == cap(segs_cells(segs.deep_view())),
{
    let ghost all = segs.deep_view();
    let mut cells: usize = 0;
    let mut i: usize = 0;
    while i < segs.len()
        invariant
            i <= segs.len(),
            all == segs.deep_view(),
            cells == cap(segs_cells(all.take(i as int))),
        decreases segs.len() - i,
    {
        proof {
            assert(all.take(i as int + 1).drop_last() =~= all.take(i as int));
        }
        cells = cells.saturating_add(text::width(segs[i].text.as_str()));
        i += 1;
    }
    proof {
        assert(all.take(i as int) =~= all);
    }
    cells
}

/// The cells of one choice of parts.
fn cells_for(
    header: &CardHeader,
    target: Option<usize>,
    with_stats: bool,
    with_time: bool,
    Ghost(fit): Ghost<HeaderFit>,
) -> (cells: usize)
    requires
        target == (match fit.target {
            Some(text) => Some(cell_width(text)),
            None => None,
        }),
        fit.stats == (if with_stats {
            header.deep_view().stats
        } else {
            None
        }),
        fit.time == (if with_time {
            header.deep_view().time
        } else {
            None
        }),
    ensures
        cells == cap(shown_cells(header.deep_view(), fit)),
{
    let mut used: usize = text::width(header.bar.text.as_str()).saturating_add(1).saturating_add(
        text::width(header.action.text.as_str()),
    );
    if let Some(cells) = target {
        used = used.saturating_add(1).saturating_add(cells);
    }
    if with_stats {
        if let Some(segs) = &header.stats {
            used = used.saturating_add(1).saturating_add(segs_width(segs));
        }
    }
    used = used.saturating_add(text::width(header.status.text.as_str()));
    if with_time {
        if let Some(piece) = &header.time {
            used = used.saturating_add(1).saturating_add(text::width(piece.text.as_str()));
        }
    }
    used
}

/// Which parts of a header are shown, and with how many dots.
struct FitChoice {
    target: Option<String>,
    with_stats: bool,
    with_time: bool,
    dots: usize,
}

impl FitChoice {
    spec fn fit(&self, header: HeaderView) -> HeaderFit {
        HeaderFit {
            target: self.target.deep_view(),
            stats: if self.with_stats {
                header.stats
            } else {
                None
            },
            time: if self.with_time {
                header.time
            } else {
                None
            },
        }
    }
}

/// The parts asked for, with the whole target.
fn take_parts(header: &CardHeader, with_stats: bool, with_time: bool, width: usize) -> (choice:
    FitChoice)
    ensures
        choice.fit(header.deep_view()) == with_parts(header.deep_view(), with_stats, with_time),
        choice.dots == leader(
            header.deep_view(),
            with_parts(header.deep_view(), with_stats, with_time),
            width as nat,
        ),
{
    let ghost fit = with_parts(header.deep_view(), with_stats, with_time);
    let target: Option<String> = match &header.target {
        Some(piece) => Some(piece.text.clone()),
        None => None,
    };
    let measured: Option<usize> = match &target {
        Some(text) => Some(text::width(text.as_str())),
        None => None,
    };
    let used = cells_for(header, measured, with_stats, with_time, Ghost(fit));
    let dots = width.saturating_sub(used.saturating_add(4));
    FitChoice { target, with_stats, with_time, dots }
}

/// The parts asked for, with the target cut to the room there is for it.
fn cut_parts(header: &CardHeader, with_stats: bool, with_time: bool, width: usize) -> (result: (
    FitChoice,
    usize,
))
    ensures
        ({
            let fit = with_parts(header.deep_view(), with_stats, with_time);
            &&& result.0.fit(header.deep_view()) == target_cut(
                header.deep_view(),
                fit,
                width as nat,
            )
            &&& result.0.dots == leader(
                header.deep_view(),
                target_cut(header.deep_view(), fit, width as nat),
                width as nat,
            )
            &&& result.1 == target_room(header.deep_view(), fit, width as nat)
        }),
{
    let ghost fit = with_parts(header.deep_view(), with_stats, with_time);
    let ghost shown = target_cut(header.deep_view(), fit, width as nat);
    let ghost others = HeaderFit { target: None, ..fit };
    let beside = cells_for(header, None, with_stats, with_time, Ghost(others));
    let room = width.saturating_sub(beside.saturating_add(6));
    let target: Option<String> = match &header.target {
        Some(piece) => if text::width(piece.text.as_str()) <= room {
            Some(piece.text.clone())
        } else if room == 0 {
            None
        } else {
            Some(text::truncate_mid(piece.text.as_str(), room))
        },
        None => None,
    };
    let measured: Option<usize> = match &target {
        Some(text) => Some(text::width(text.as_str())),
        None => None,
    };
    let used = cells_for(header, measured, with_stats, with_time, Ghost(shown));
    let dots = width.saturating_sub(used.saturating_add(4));
    (FitChoice { target, with_stats, with_time, dots }, room)
}

/// Walks the degradation ladder.
fn choose_parts(header: &CardHeader, width: usize) -> (choice: FitChoice)
    ensures
        choice.fit(header.deep_view()) == header_fit(header.deep_view(), width as nat),
        choice.dots == leader(
            header.deep_view(),
            header_fit(header.deep_view(), width as nat),
            width as nat,
        ),
{
    let whole = take_parts(header, true, true, width);
    if whole.dots >= 1 {
        return whole;
    }
    let (cut, room) = cut_parts(header, true, true, width);
    if room >= 3 && cut.dots >= 1 {
        return cut;
    }
    let bare = take_parts(header, false, true, width);
    if bare.dots >= 1 {
        return bare;
    }
    let (cut, room) = cut_parts(header, false, true, width);
    if room >= 3 && cut.dots >= 1 {
        return cut;
    }
    let (least, _) = cut_parts(header, false, false, width);
    least
}

/// Lays out the spans of one choice of parts.
fn bake_header(header: &CardHeader, choice: &FitChoice, Ghost(width): Ghost<nat>) -> (spans: Vec<
    ProseSpan,
>)
    requires
        choice.dots == leader(header.deep_view(), choice.fit(header.deep_view()), width),
    ensures
        spans.deep_view() == header_spans(
            header.deep_view(),
            choice.fit(header.deep_view()),
            width,
        ),
{
    let ghost view = header.deep_view();
    let blank = ProseStyle::default();
    let mut spans: Vec<ProseSpan> = Vec::new();
    push_item(
        &mut spans,
        card_span(header.bar.text.as_str(), header.bar.color, header.bar.bold),
    );
    push_item(&mut spans, ProseSpan::of(" ", blank));
    push_item(
        &mut spans,
        card_span(header.action.text.as_str(), header.action.color, header.action.bold),
    );
    proof {
        assert(spans.deep_view() =~= seq![
            of_piece(view.bar),
            blank_span(),
            of_piece(view.action),
        ]);
    }
    if let Some(piece) = &header.target {
        if let Some(text) = &choice.target {
            push_item(&mut spans, ProseSpan::of(" ", blank));
            push_item(&mut spans, card_span(text.as_str(), piece.color, piece.bold));
        }
    }
    if choice.with_stats {
        if let Some(segs) = &header.stats {
            push_item(&mut spans, ProseSpan::of(" ", blank));
            push_segs(&mut spans, segs);
        }
    }
    if choice.dots > 0 {
        push_item(&mut spans, ProseSpan::of(" ", blank));
        push_item(
            &mut spans,
            ProseSpan::new(
                strs::repeat_char('·', choice.dots),
                ProseStyle::default().colored(ProseColor::Border),
            ),
        );
        push_item(&mut spans, ProseSpan::of(" ", blank));
    }
    push_item(
        &mut spans,
        card_span(header.status.text.as_str(), header.status.color, header.status.bold),
    );
    if choice.with_time {
        if let Some(piece) = &header.time {
            push_item(&mut spans, ProseSpan::of(" ", blank));
            push_item(&mut spans, card_span(piece.text.as_str(), piece.color, piece.bold));
        }
    }
    spans
}

/// The card header, projected into exactly one row.
///
/// Layout: `▎ action target stats`, then dots fill to a two-column gap, then
/// `status time` right-aligned with a two-column right margin.
pub fn project_card_header(header: &CardHeader, width: usize) -> (row: ProjectedRow)
    ensures
        row.deep_view() == header_row(header.deep_view(), width as nat),
{
    if width == 0 {
        let spans: Vec<ProseSpan> = Vec::new();
        proof {
            assert(spans.deep_view() =~= Seq::<SpanView>::empty());
        }
        return ProjectedRow::styled(BlockRole::Plain, spans);
    }
    let choice = choose_parts(header, width);
    let spans = bake_header(header, &choice, Ghost(width as nat));
    let row = ProjectedRow::styled(BlockRole::Plain, spans);
    if text::width(row.text.as_str()) > width {
        return ProjectedRow::styled(BlockRole::Plain, clip_header(header, row.text.as_str(), width));
    }
    row
}

/// The bar and the action clipped to what the status leaves.
fn clip_header(header: &CardHeader, row: &str, width: usize) -> (spans: Vec<ProseSpan>)
    ensures
        spans.deep_view() == clipped_spans(header.deep_view(), row@, width as nat),
{
    let ghost view = header.deep_view();
    let mut spans: Vec<ProseSpan> = Vec::new();
    let status = text::width(header.status.text.as_str());
    if status > width {
        let clipped = text::truncate(row, width);
        push_item(&mut spans, ProseSpan::new(clipped, ProseStyle::default()));
    } else {
        let mut lead = strs::cat(header.bar.text.as_str(), " ");
        lead.push_str(header.action.text.as_str());
        let clipped = text::truncate(lead.as_str(), width - status);
        push_item(&mut spans, ProseSpan::new(clipped, ProseStyle::default()));
        push_item(
            &mut spans,
            card_span(header.status.text.as_str(), header.status.color, header.status.bold),
        );
    }
    proof {
        assert(spans.deep_view() =~= clipped_spans(view, row@, width as nat));
    }
    spans
}

proof fn span_text_occurs(spans: Seq<SpanView>, at: int)
    requires
        0 <= at < spans.len(),
    ensures
        occurs(spans_text(spans), spans[at].text),
{
    let before = spans.take(at);
    let one = seq![spans[at]];
    let behind = spans.skip(at + 1);
    assert(spans =~= before + one + behind);
    spans_text_add(before + one, behind);
    spans_text_add(before, one);
    assert(one.drop_last() =~= Seq::<SpanView>::empty());
    reveal_with_fuel(spans_text, 2);
    let text = spans_text(spans);
    let start = spans_text(before).len() as int;
    assert(text.subrange(start, start + spans[at].text.len()) =~= spans[at].text);
    assert(occurs_at(text, spans[at].text, start));
}

/// The status is never dropped: it stands in the row's text at every width that
/// it fits into by itself.
pub proof fn header_keeps_its_status(header: HeaderView, width: nat)
    requires
        width > 0,
        cell_width(header.status.text) <= width,
    ensures
        occurs(header_row(header, width).text, header.status.text),
{
    let fit = header_fit(header, width);
    let spans = header_spans(header, fit, width);
    if cell_width(spans_text(spans)) > width {
        span_text_occurs(clipped_spans(header, spans_text(spans), width), 1);
    } else {
        let back = if fit.time is Some {
            3int
        } else {
            1int
        };
        assert(spans[spans.len() - back] == of_piece(header.status));
        span_text_occurs(spans, spans.len() - back);
    }
}

/// The header row takes no more cells than the width.
pub proof fn header_fits_its_width(header: HeaderView, width: nat)
    ensures
        takes_at_most(header_row(header, width).text, width),
{
    let text = header_row(header, width).text;
    let spans = header_spans(header, header_fit(header, width), width);
    if width == 0 {
        assert(pieces_within(Seq::<ClusterView>::empty(), text, width));
    } else if cell_width(spans_text(spans)) <= width {
        let whole = ClusterView { text, cells: cell_width(text) as nat };
        text::single_cluster(whole);
        assert(pieces_within(seq![whole], text, width));
    } else {
        let clipped = clipped_spans(header, spans_text(spans), width);
        let status = header.status.text;
        reveal_with_fuel(spans_text, 3);
        if cell_width(status) > width {
            text::truncation_takes_no_more(spans_text(spans), width);
            assert(clipped.drop_last() =~= Seq::<SpanView>::empty());
            assert(text =~= truncated(spans_text(spans), width));
        } else {
            let room = (width - cell_width(status)) as nat;
            let lead = truncated(header_lead(header), room);
            text::truncation_takes_no_more(header_lead(header), room);
            let items = choose|items: Seq<ClusterView>| pieces_within(items, lead, room);
            let last = ClusterView { text: status, cells: cell_width(status) as nat };
            text::single_cluster(last);
            text::content_add(items, seq![last]);
            text::cells_add(items, seq![last]);
            assert(clipped.drop_last().drop_last() =~= Seq::<SpanView>::empty());
            assert(clipped.drop_last().last() == clipped[0]);
            assert(text =~= lead + status);
            assert(weighed(last));
            assert(pieces_within(items + seq![last], text, width));
        }
    }
}

// ---------------------------------------------------------------------------
// The body rows
// ---------------------------------------------------------------------------

/// The first wash tone among the segments.
pub open spec fn wash(segs: Seq<SegView>) -> Option<Tone>
    decreases segs.len(),
{
    if segs.len() == 0 {
        None
    } else if segs[0].tone is Some {
        segs[0].tone
    } else {
        wash(segs.skip(1))
    }
}

/// A row of spans in the wash of its line.
pub open spec fn washed(spans: Seq<SpanView>, tone: Option<Tone>) -> RowView {
    RowView { tone, ..styled_row(RoleView::Plain, spans) }
}

/// The segments of a body line as spans.
pub open spec fn seg_spans(segs: Seq<SegView>) -> Seq<SpanView> {
    segs.map_values(|s: SegView| of_seg(s))
}

/// The gutter of a body line: the indent and its first segment.
pub open spec fn gutter_cells(segs: Seq<SegView>) -> nat {
    cap(
        2 + (if segs.len() == 0 {
            0
        } else {
            cell_width(segs[0].text) as nat
        }),
    )
}

/// What stands before row `i` of a wrapped body line: the gutter, and blanks of
/// its width before the rows below.
pub open spec fn hanging(segs: Seq<SegView>, i: int) -> Seq<SpanView> {
    if i == 0 {
        seq![span("  "@, plain_style()), of_seg(segs[0])]
    } else {
        seq![span(repeated(' ', gutter_cells(segs)), plain_style())]
    }
}

/// The rows of one body line: a two-column indent and the segments. A line wider
/// than the width is wrapped beside its gutter, which becomes the hanging indent;
/// one whose gutter fills the width is wrapped whole.
pub open spec fn body_line_rows(segs: Seq<SegView>, width: nat) -> Seq<RowView> {
    let all = seg_spans(segs);
    let spans = seq![span("  "@, plain_style())] + all;
    let tone = wash(segs);
    let gutter = gutter_cells(segs);
    if spans_cells(spans) <= width {
        seq![washed(spans, tone)]
    } else if segs.len() > 1 && gutter < width {
        let rows = wrapped_spans(all.skip(1), (width - gutter) as nat);
        Seq::new(rows.len(), |i: int| washed(hanging(segs, i) + rows[i], tone))
    } else {
        let rows = wrapped_spans(spans, width);
        Seq::new(rows.len(), |i: int| washed(rows[i], tone))
    }
}

fn finish_row(spans: Vec<ProseSpan>, tone: Option<Tone>) -> (row: ProjectedRow)
    ensures
        row.deep_view() == washed(spans.deep_view(), tone),
{
    match tone {
        Some(tone) => ProjectedRow::styled_with_tone(BlockRole::Plain, spans, tone),
        None => ProjectedRow::styled(BlockRole::Plain, spans),
    }
}

/// One body row: a two-column indent plus the line's segments, soft-wrapped with
/// the gutter as hanging indent when it overflows the width.
pub fn project_body_line(segments: &Vec<SegSpan>, width: usize) -> (rows: Vec<ProjectedRow>)
    ensures
        rows.deep_view() == body_line_rows(segments.deep_view(), width as nat),
{
    let ghost segs = segments.deep_view();
    let mut spans: Vec<ProseSpan> = Vec::new();
    let indent = ProseSpan::of("  ", ProseStyle::default());
    spans.push(indent);
    proof {
        assert(spans.deep_view() =~= seq![indent.deep_view()]);
    }
    push_segs(&mut spans, segments);
    let mut tone: Option<Tone> = None;
    let mut i: usize = 0;
    proof {
        assert(segs.skip(0) =~= segs);
    }
    while i < segments.len() && tone.is_none()
        invariant
            i <= segments.len(),
            segs == segments.deep_view(),
            match tone {
                Some(_) => wash(segs) == tone,
                None => wash(segs) == wash(segs.skip(i as int)),
            },
        decreases segments.len() - i,
    {
        proof {
            assert(segs.skip(i as int)[0] == segs[i as int]);
            assert(segs.skip(i as int).skip(1) =~= segs.skip(i as int + 1));
        }
        tone = segments[i].tone;
        i += 1;
    }
    let mut out: Vec<ProjectedRow> = Vec::new();
    if spans_width(&spans) <= width {
        let row = finish_row(spans, tone);
        out.push(row);
        proof {
            assert(out.deep_view() =~= seq![row.deep_view()]);
        }
        return out;
    }
    let gutter: usize = if segments.len() == 0 {
        2
    } else {
        text::width(segments[0].text.as_str()).saturating_add(2)
    };
    let hangs = segments.len() > 1 && gutter < width;
    let ghost all = seg_spans(segs);
    let rows = if hangs {
        let ghost whole = spans.deep_view();
        let content = spans.split_off(2);
        proof {
            assert(whole =~= seq![span("  "@, plain_style())] + all);
            assert(content.deep_view() =~= whole.skip(2));
            assert(spans.deep_view() =~= whole.take(2));
            assert(whole.skip(2) =~= all.skip(1));
            assert(whole.take(2) =~= hanging(segs, 0));
        }
        wrap_spans(&content, width - gutter)
    } else {
        wrap_spans(&spans, width)
    };
    let ghost wraps = rows.deep_view();
    let ghost expected = body_line_rows(segs, width as nat);
    let mut k: usize = 0;
    while k < rows.len()
        invariant
            k <= rows.len(),
            wraps == rows.deep_view(),
            expected.len() == rows.len(),
            gutter == gutter_cells(segs),
            hangs ==> spans.deep_view() == hanging(segs, 0),
            forall|j: int|
                0 <= j < expected.len() ==> #[trigger] expected[j] == (if hangs {
                    washed(hanging(segs, j) + wraps[j], tone)
                } else {
                    washed(wraps[j], tone)
                }),
            out.len() == k,
            forall|j: int| 0 <= j < k ==> (#[trigger] out@[j]).deep_view() == expected[j],
        decreases rows.len() - k,
    {
        let mut full: Vec<ProseSpan> = Vec::new();
        if hangs {
            if k == 0 {
                super::prose::style::push_copies(&mut full, &spans);
            } else {
                full.push(ProseSpan::new(strs::repeat_char(' ', gutter), ProseStyle::default()));
            }
            proof {
                assert(full.deep_view() =~= hanging(segs, k as int));
            }
        }
        let ghost lead = full.deep_view();
        super::prose::style::push_copies(&mut full, &rows[k]);
        proof {
            assert(wraps[k as int] == rows@[k as int].deep_view());
            if !hangs {
                assert(full.deep_view() =~= wraps[k as int]);
            }
        }
        out.push(finish_row(full, tone));
        k += 1;
    }
    proof {
        assert(out.deep_view() =~= expected);
    }
    out
}

/// A wrapped body line stays within the width, its hanging indent included, where
/// no cluster of it is wider than the room beside its gutter.
pub proof fn hanging_rows_fit(segs: Seq<SegView>, width: nat)
    requires
        segs.len() > 1,
        gutter_cells(segs) < width <= usize::MAX,
        spans_cells(seq![span("  "@, plain_style())] + seg_spans(segs)) > width,
        forall|i: int|
            0 <= i < glyphs_of(seg_spans(segs).skip(1)).len() ==> (#[trigger] glyphs_of(
                seg_spans(segs).skip(1),
            )[i]).cells + gutter_cells(segs) <= width,
    ensures
        forall|i: int|
            0 <= i < body_line_rows(segs, width).len() ==> takes_at_most(
                (#[trigger] body_line_rows(segs, width)[i]).text,
                width,
            ),
{
    let gutter = gutter_cells(segs);
    let content = seg_spans(segs).skip(1);
    let room = (width - gutter) as nat;
    let rows = wrapped_spans(content, room);
    wrapped_spans_fit(content, room);
    assert forall|i: int| 0 <= i < body_line_rows(segs, width).len() implies takes_at_most(
        (#[trigger] body_line_rows(segs, width)[i]).text,
        width,
    ) by {
        let lead = hanging(segs, i);
        spans_text_add(lead, rows[i]);
        reveal_with_fuel(spans_text, 3);
        assert(lead.drop_last() =~= lead.take(lead.len() - 1));
        if i == 0 {
            let first = segs[0].text;
            let piece = ClusterView { text: first, cells: cell_width(first) as nat };
            reveal_strlit("  ");
            text::ascii_takes_its_length("  "@);
            text::single_cluster(piece);
            assert(pieces_within(seq![piece], first, cell_width(first) as nat));
            text::room_adds_up("  "@, 2, first, cell_width(first) as nat);
            assert(lead.drop_last().drop_last() =~= Seq::<SpanView>::empty());
            assert(lead.drop_last().last() == lead[0]);
            assert(spans_text(lead) =~= "  "@ + first);
        } else {
            text::ascii_takes_its_length(repeated(' ', gutter));
            assert(lead.drop_last() =~= Seq::<SpanView>::empty());
            assert(spans_text(lead) =~= repeated(' ', gutter));
        }
        text::room_adds_up(spans_text(lead), gutter, spans_text(rows[i]), room);
    }
}

/// The center of a fold bar: the count and the label.
pub open spec fn fold_center(body: BodyView) -> Seq<char> {
    "▾ "@ + decimal(body.fold_count as nat) + " "@ + body.fold_label
}

/// The hint how to unfold.
pub open spec fn fold_hint(body: BodyView) -> Seq<char> {
    if body.fold_hint {
        " (按 Space 展开)"@
    } else {
        Seq::empty()
    }
}

/// The fold bar: rails around count, label and hint, extended to the width.
pub open spec fn fold_bar(body: BodyView, width: nat) -> RowView {
    let center = fold_center(body);
    let hint = fold_hint(body);
    let used = 2 + cell_width("┈┈ "@) as nat + cell_width(center) as nat + cell_width(hint) as nat
        + cell_width(" ┈┈"@) as nat;
    let lead = seq![
        span("  "@, plain_style()),
        span("┈┈ "@, in_color(ProseColor::Meta)),
        span(center, in_color(ProseColor::Code)),
    ];
    let hinted = if body.fold_hint {
        lead.push(span(hint, in_color(ProseColor::DarkGray)))
    } else {
        lead
    };
    let right = if width > used {
        " ┈┈"@ + repeated('┈', (width - used) as nat)
    } else {
        " ┈┈"@
    };
    styled_row(RoleView::Plain, hinted.push(span(right, in_color(ProseColor::Meta))))
}

/// The fold bar row, inside the body's two-column indent like every other body
/// row.
pub fn project_fold_bar(body: &CardBody, width: usize) -> (row: ProjectedRow)
    ensures
        row.deep_view() == fold_bar(body.deep_view(), width as nat),
{
    let mut center = strs::cat("▾ ", strs::number(body.fold_count as u64).as_str());
    center.push_str(" ");
    center.push_str(body.fold_label.as_str());
    let hint = if body.fold_hint {
        " (按 Space 展开)".to_owned()
    } else {
        String::new()
    };
    let used: usize = text::width("┈┈ ").saturating_add(2).saturating_add(
        text::width(center.as_str()),
    ).saturating_add(text::width(hint.as_str())).saturating_add(text::width(" ┈┈"));
    let mut right = " ┈┈".to_owned();
    if width > used {
        strs::push_repeated(&mut right, '┈', width - used);
    }
    let meta = ProseStyle::default().colored(ProseColor::Meta);
    let mut spans: Vec<ProseSpan> = Vec::new();
    push_item(&mut spans, ProseSpan::of("  ", ProseStyle::default()));
    push_item(&mut spans, ProseSpan::of("┈┈ ", meta));
    push_item(
        &mut spans,
        ProseSpan::new(center, ProseStyle::default().colored(ProseColor::Code)),
    );
    proof {
        assert(spans.deep_view() =~= seq![
            span("  "@, plain_style()),
            span("┈┈ "@, in_color(ProseColor::Meta)),
            span(fold_center(body.deep_view()), in_color(ProseColor::Code)),
        ]);
    }
    if body.fold_hint {
        push_item(
            &mut spans,
            ProseSpan::new(hint, ProseStyle::default().colored(ProseColor::DarkGray)),
        );
    }
    push_item(&mut spans, ProseSpan::new(right, meta));
    ProjectedRow::styled(BlockRole::Plain, spans)
}

/// The rows of several body lines.
pub open spec fn body_lines_rows(lines: Seq<Seq<SegView>>, width: nat) -> Seq<RowView>
    decreases lines.len(),
{
    if lines.len() == 0 {
        Seq::empty()
    } else {
        body_lines_rows(lines.drop_last(), width) + body_line_rows(lines.last(), width)
    }
}

/// The rows of a body: all its lines, or, folded past its threshold, the bar
/// alone or the first two lines, the bar and the last line.
pub open spec fn body_rows(body: BodyView, width: nat, folded: bool) -> Seq<RowView> {
    let count = body.lines.len();
    if width == 0 {
        Seq::empty()
    } else if folded && count > body.threshold {
        if body.fold_all {
            seq![fold_bar(body, width)]
        } else {
            let head = body.lines.take(
                if count < 2 {
                    count as int
                } else {
                    2
                },
            );
            body_lines_rows(head, width).push(fold_bar(body, width)) + body_line_rows(
                body.lines.last(),
                width,
            )
        }
    } else {
        body_lines_rows(body.lines, width)
    }
}

fn push_body_lines(rows: &mut Vec<ProjectedRow>, lines: &Vec<Vec<SegSpan>>, count: usize, width: usize)
    requires
        count <= lines.len(),
    ensures
        final(rows).deep_view() == old(rows).deep_view() + body_lines_rows(
            lines.deep_view().take(count as int),
            width as nat,
        ),
{
    let ghost all = lines.deep_view();
    let ghost start = rows.deep_view();
    let mut i: usize = 0;
    proof {
        assert(start + body_lines_rows(all.take(0), width as nat) =~= start);
    }
    while i < count
        invariant
            i <= count <= lines.len(),
            all == lines.deep_view(),
            rows.deep_view() == start + body_lines_rows(all.take(i as int), width as nat),
        decreases count - i,
    {
        let ghost before = rows.deep_view();
        let mut more = project_body_line(&lines[i], width);
        let ghost added = more.deep_view();
        rows.append(&mut more);
        proof {
            assert(rows.deep_view() =~= before + added);
            assert(all.take(i as int + 1).drop_last() =~= all.take(i as int));
            assert(all.take(i as int + 1).last() == lines@[i as int].deep_view());
            assert(rows.deep_view() =~= start + body_lines_rows(
                all.take(i as int + 1),
                width as nat,
            ));
        }
        i += 1;
    }
}

/// The card body: typed rows under a header, foldable past the threshold.
pub fn project_card_body(body: &CardBody, width: usize, folded: bool) -> (rows: Vec<ProjectedRow>)
    ensures
        rows.deep_view() == body_rows(body.deep_view(), width as nat, folded),
{
    let mut rows: Vec<ProjectedRow> = Vec::new();
    let count = body.lines.len();
    let ghost all = body.lines.deep_view();
    proof {
        assert(rows.deep_view() =~= Seq::<RowView>::empty());
    }
    if width == 0 {
        return rows;
    }
    if folded && count > body.threshold {
        if !body.fold_all {
            push_body_lines(
                &mut rows,
                &body.lines,
                if count < 2 {
                    count
                } else {
                    2
                },
                width,
            );
        }
        let ghost before = rows.deep_view();
        let bar = project_fold_bar(body, width);
        rows.push(bar);
        proof {
            assert(rows.deep_view() =~= before.push(bar.deep_view()));
        }
        if !body.fold_all {
            let ghost barred = rows.deep_view();
            let mut more = project_body_line(&body.lines[count - 1], width);
            let ghost added = more.deep_view();
            rows.append(&mut more);
            proof {
                assert(rows.deep_view() =~= barred + added);
                assert(all.last() == body.lines@[count - 1].deep_view());
                assert(Seq::<RowView>::empty() + body_lines_rows(
                    all.take(
                        if count < 2 {
                            count as int
                        } else {
                            2
                        },
                    ),
                    width as nat,
                ) =~= before);
            }
        } else {
            proof {
                assert(rows.deep_view() =~= seq![bar.deep_view()]);
            }
        }
    } else {
        push_body_lines(&mut rows, &body.lines, count, width);
        proof {
            assert(all.take(count as int) =~= all);
            assert(rows.deep_view() =~= body_lines_rows(all, width as nat));
        }
    }
    rows
}

// ---------------------------------------------------------------------------
// Think headers
// ---------------------------------------------------------------------------

/// The label of a think header, timed or not.
pub open spec fn think_label(elapsed: Option<u64>) -> Seq<char> {
    match elapsed {
        Some(_) => "Thought for "@,
        None => "Thought"@,
    }
}

pub open spec fn think_duration(elapsed: Option<u64>) -> Seq<char> {
    match elapsed {
        Some(elapsed) => think_elapsed_text(elapsed),
        None => Seq::empty(),
    }
}

/// The header row of a think block: label, duration, dots to the width, hint.
pub open spec fn think_header(elapsed: Option<u64>, width: nat) -> RowView {
    if width == 0 {
        styled_row(RoleView::Plain, Seq::empty())
    } else {
        let label = think_label(elapsed);
        let duration = think_duration(elapsed);
        let hint = " (按 Space 查看)"@;
        let fixed = cell_width("▎ "@) as nat + cell_width(label) as nat + cell_width(
            duration,
        ) as nat + 2 + cell_width(hint) as nat;
        let dots = if width > fixed {
            (width - fixed) as nat
        } else {
            0
        };
        let lead = seq![
            span("▎ "@, in_color(ProseColor::DarkGray)),
            span(label, in_color(ProseColor::Meta)),
        ];
        let timed = if duration.len() == 0 {
            lead
        } else {
            lead.push(span(duration, in_color(ProseColor::DarkGray)))
        };
        styled_row(
            RoleView::Plain,
            timed.push(blank_span()).push(
                span(repeated('·', dots), in_color(ProseColor::Border)),
            ).push(blank_span()).push(span(hint, in_color(ProseColor::DarkGray))),
        )
    }
}

/// The think block's header row: `▎ Thought for 4s ··········· (按 Space 查看)`.
/// A block without timing renders a bare `Thought`.
pub fn project_think_header(elapsed: Option<u64>, width: usize) -> (row: ProjectedRow)
    ensures
        row.deep_view() == think_header(elapsed, width as nat),
{
    let mut spans: Vec<ProseSpan> = Vec::new();
    if width == 0 {
        proof {
            assert(spans.deep_view() =~= Seq::<SpanView>::empty());
        }
        return ProjectedRow::styled(BlockRole::Plain, spans);
    }
    let label = if elapsed.is_some() {
        "Thought for "
    } else {
        "Thought"
    };
    let duration = match elapsed {
        Some(elapsed) => format_think_elapsed(elapsed),
        None => String::new(),
    };
    let hint = " (按 Space 查看)";
    let fixed: usize = text::width("▎ ").saturating_add(text::width(label)).saturating_add(
        text::width(duration.as_str()),
    ).saturating_add(2).saturating_add(text::width(hint));
    let dots = width.saturating_sub(fixed);
    let dark = ProseStyle::default().colored(ProseColor::DarkGray);
    push_item(&mut spans, ProseSpan::of("▎ ", dark));
    push_item(&mut spans, ProseSpan::of(label, ProseStyle::default().colored(ProseColor::Meta)));
    proof {
        assert(spans.deep_view() =~= seq![
            span("▎ "@, in_color(ProseColor::DarkGray)),
            span(think_label(elapsed), in_color(ProseColor::Meta)),
        ]);
    }
    if !duration.as_str().is_empty() {
        push_item(&mut spans, ProseSpan::new(duration, dark));
    }
    push_item(&mut spans, ProseSpan::of(" ", ProseStyle::default()));
    push_item(
        &mut spans,
        ProseSpan::new(
            strs::repeat_char('·', dots),
            ProseStyle::default().colored(ProseColor::Border),
        ),
    );
    push_item(&mut spans, ProseSpan::of(" ", ProseStyle::default()));
    push_item(&mut spans, ProseSpan::of(hint, dark));
    ProjectedRow::styled(BlockRole::Plain, spans)
}

// ---------------------------------------------------------------------------
// Laws of the body
// ---------------------------------------------------------------------------

proof fn lines_of_two(a: Seq<Seq<SegView>>, b: Seq<Seq<SegView>>, width: nat)
    ensures
        body_lines_rows(a + b, width) == body_lines_rows(a, width) + body_lines_rows(b, width),
    decreases b.len(),
{
    if b.len() == 0 {
        assert(a + b =~= a);
        assert(body_lines_rows(a, width) + body_lines_rows(b, width) =~= body_lines_rows(a, width));
    } else {
        lines_of_two(a, b.drop_last(), width);
        assert((a + b).drop_last() =~= a + b.drop_last());
        assert(body_lines_rows(a + b, width) =~= body_lines_rows(a, width) + body_lines_rows(
            b,
            width,
        ));
    }
}

/// A body with other lines.
pub open spec fn with_lines(body: BodyView, lines: Seq<Seq<SegView>>) -> BodyView {
    BodyView { lines, ..body }
}

/// A body that is not folded shows its lines one below the other: the rows of a
/// body whose lines are those of two others are the rows of the one, then those of
/// the other.
pub proof fn unfolded_bodies_join(
    body: BodyView,
    upper: Seq<Seq<SegView>>,
    lower: Seq<Seq<SegView>>,
    width: nat,
)
    ensures
        body_rows(with_lines(body, upper + lower), width, false) == body_rows(
            with_lines(body, upper),
            width,
            false,
        ) + body_rows(with_lines(body, lower), width, false),
        body_rows(with_lines(body, Seq::empty()), width, false).len() == 0,
{
    lines_of_two(upper, lower, width);
    if width == 0 {
        assert(Seq::<RowView>::empty() + Seq::<RowView>::empty() =~= Seq::<RowView>::empty());
    }
}

/// A folded body of more than two lines shows its first two and its last line as
/// they are when it is unfolded, and a single bar between them that stands for
/// the rest: what is above the bar is the beginning of the unfolded body, what is
/// below it its end. A body of up to two lines shows them all above the bar.
pub proof fn folding_keeps_both_ends(body: BodyView, width: nat)
    requires
        width > 0,
        body.lines.len() > body.threshold,
        !body.fold_all,
    ensures
        ({
            let n = body.lines.len() as int;
            let two = if n < 2 {
                n
            } else {
                2
            };
            let whole = body_rows(body, width, false);
            let folded = body_rows(body, width, true);
            let upper = body_rows(with_lines(body, body.lines.take(two)), width, false);
            let lower = body_rows(with_lines(body, seq![body.lines[n - 1]]), width, false);
            &&& folded.len() == upper.len() + 1 + lower.len()
            &&& folded.take(upper.len() as int) == upper
            &&& folded.skip(upper.len() as int + 1) == lower
            &&& whole.take(upper.len() as int) == upper
            &&& whole.skip(whole.len() - lower.len()) == lower
        }),
{
    let n = body.lines.len() as int;
    let two = if n < 2 {
        n
    } else {
        2
    };
    let lines = body.lines;
    let last = seq![lines[n - 1]];
    let upper = body_lines_rows(lines.take(two), width);
    let lower = body_lines_rows(last, width);
    assert(lines =~= lines.take(two) + lines.skip(two));
    lines_of_two(lines.take(two), lines.skip(two), width);
    both_ends(upper, body_lines_rows(lines.skip(two), width));
    assert(lines =~= lines.take(n - 1) + last);
    lines_of_two(lines.take(n - 1), last, width);
    both_ends(body_lines_rows(lines.take(n - 1), width), lower);
    rows_of_one_line(lines[n - 1], width);
    around_the_bar(upper, fold_bar(body, width), lower);
}

proof fn rows_of_one_line(line: Seq<SegView>, width: nat)
    ensures
        body_lines_rows(seq![line], width) == body_line_rows(line, width),
{
    let lines = seq![line];
    assert(lines.drop_last() =~= Seq::<Seq<SegView>>::empty());
    assert(body_lines_rows(lines.drop_last(), width) =~= Seq::<RowView>::empty());
    assert(body_lines_rows(lines, width) =~= body_line_rows(line, width));
}

proof fn both_ends(upper: Seq<RowView>, lower: Seq<RowView>)
    ensures
        (upper + lower).take(upper.len() as int) == upper,
        (upper + lower).skip((upper + lower).len() - lower.len()) == lower,
{
    assert((upper + lower).take(upper.len() as int) =~= upper);
    assert((upper + lower).skip(upper.len() as int) =~= lower);
}

proof fn around_the_bar(upper: Seq<RowView>, bar: RowView, lower: Seq<RowView>)
    ensures
        (upper.push(bar) + lower).len() == upper.len() + 1 + lower.len(),
        (upper.push(bar) + lower).take(upper.len() as int) == upper,
        (upper.push(bar) + lower).skip(upper.len() as int + 1) == lower,
{
    assert((upper.push(bar) + lower).take(upper.len() as int) =~= upper);
    assert((upper.push(bar) + lower).skip(upper.len() as int + 1) =~= lower);
}

/// Folding hides nothing of a body that is not longer than its threshold, and
/// shows a single row for one that folds as a whole.
pub proof fn folding_follows_the_threshold(body: BodyView, width: nat)
    requires
        width > 0,
    ensures
        body.lines.len() <= body.threshold ==> body_rows(body, width, true) == body_rows(
            body,
            width,
            false,
        ),
        body.lines.len() > body.threshold && body.fold_all ==> body_rows(body, width, true).len()
            == 1,
{
}

/// A body line that fits the width is one row: two blanks, then the texts of its
/// segments one after the other, each in its own weight.
pub proof fn short_lines_are_shown_whole(segs: Seq<SegView>, width: nat)
    requires
        spans_cells(seq![span("  "@, plain_style())] + seg_spans(segs)) <= width,
    ensures
        body_line_rows(segs, width).len() == 1,
        body_line_rows(segs, width)[0].text == "  "@ + segs_text(segs),
        body_line_rows(segs, width)[0].spans is Some,
        body_line_rows(segs, width)[0].spans->0.len() == segs.len() + 1,
        forall|i: int|
            0 <= i < segs.len() ==> {
                let shown = body_line_rows(segs, width)[0].spans->0[i + 1];
                shown.text == (#[trigger] segs[i]).text && shown.style.bold == segs[i].bold
            },
{
    let lead = seq![span("  "@, plain_style())];
    spans_text_add(lead, seg_spans(segs));
    texts_of_segs(segs);
    reveal_with_fuel(spans_text, 2);
    assert(lead.drop_last() =~= Seq::<SpanView>::empty());
    assert(spans_text(lead) =~= "  "@);
}

/// The texts of a run of segments.
pub open spec fn segs_text(segs: Seq<SegView>) -> Seq<char>
    decreases segs.len(),
{
    if segs.len() == 0 {
        Seq::empty()
    } else {
        segs_text(segs.drop_last()) + segs.last().text
    }
}

proof fn texts_of_segs(segs: Seq<SegView>)
    ensures
        spans_text(seg_spans(segs)) == segs_text(segs),
    decreases segs.len(),
{
    if segs.len() > 0 {
        texts_of_segs(segs.drop_last());
        assert(seg_spans(segs).drop_last() =~= seg_spans(segs.drop_last()));
    }
}

/// The bar of a folded body tells how many lines it stands for, in digits before
/// its label, and how to unfold it exactly where the body has that hint.
pub proof fn fold_bars_tell_the_count(body: BodyView, width: nat)
    requires
        width > 0,
        body.lines.len() > body.threshold,
    ensures
        ({
            let folded = body_rows(body, width, true);
            let at = if body.fold_all {
                0
            } else {
                body_rows(
                    with_lines(
                        body,
                        body.lines.take(
                            if body.lines.len() < 2 {
                                body.lines.len() as int
                            } else {
                                2
                            },
                        ),
                    ),
                    width,
                    false,
                ).len() as int
            };
            let bar = folded[at];
            &&& 0 <= at < folded.len()
            &&& exists|digits: Seq<char>| #[trigger]
                numeral_value(digits) == body.fold_count && occurs(
                    bar.text,
                    digits + " "@ + body.fold_label,
                )
            &&& bar.spans is Some
            &&& bar.spans->0.len() == if body.fold_hint {
                5int
            } else {
                4
            }
            &&& body.fold_hint ==> bar.spans->0[3].text == " (按 Space 展开)"@
        }),
{
    let bar = fold_bar(body, width);
    let digits = decimal(body.fold_count as nat);
    strs::numerals_read_back(body.fold_count as nat);
    let spans = bar.spans->0;
    let wanted = digits + " "@ + body.fold_label;
    span_text_occurs(spans, 2);
    reveal_strlit("▾ ");
    let center = fold_center(body);
    assert(center.subrange(2, 2 + wanted.len() as int) =~= wanted);
    let start = choose|at: int| #[trigger] occurs_at(bar.text, center, at);
    assert(bar.text.subrange(start + 2, start + 2 + wanted.len()) =~= wanted) by {
        let found = bar.text.subrange(start, start + center.len());
        assert(found == center);
        assert forall|i: int| 0 <= i < wanted.len() implies bar.text[start + 2 + i] == wanted[i] by {
            assert(found[2 + i] == center[2 + i]);
            assert(center.subrange(2, 2 + wanted.len() as int)[i] == center[2 + i]);
        }
    }
    assert(occurs_at(bar.text, wanted, start + 2));
    assert(numeral_value(digits) == body.fold_count);
}

/// Every segment keeps its own color: different colors stay different, and the
/// ones that prose has too keep their name.
pub proof fn colors_are_kept(a: SegColor, b: SegColor)
    ensures
        a != b ==> prose_color(a) != prose_color(b),
        prose_color(SegColor::Default) == ProseColor::Default,
        prose_color(SegColor::Red) == ProseColor::Red,
        prose_color(SegColor::Green) == ProseColor::Green,
        prose_color(SegColor::Yellow) == ProseColor::Yellow,
        prose_color(SegColor::DarkGray) == ProseColor::DarkGray,
        prose_color(SegColor::Border) == ProseColor::Border,
        prose_color(SegColor::Gray) == ProseColor::Meta,
        prose_color(SegColor::Orange) == ProseColor::Code,
{
}

proof fn one_more_span(spans: Seq<SpanView>, next: SpanView)
    ensures
        spans_text(spans.push(next)) == spans_text(spans) + next.text,
{
    assert(spans.push(next).drop_last() =~= spans);
}

/// A header with everything on it reads in one order: bar, action, target, counts,
/// dots up to the edge, how it ended and how long it took.
pub proof fn headers_read_in_order(
    header: HeaderView,
    target: PieceView,
    stats: Seq<SegView>,
    time: PieceView,
    width: nat,
)
    requires
        header.target == Some(target),
        header.stats == Some(stats),
        header.time == Some(time),
        cell_width(header.bar.text) + 1 + cell_width(header.action.text) + 1 + cell_width(
            target.text,
        ) + 1 + segs_cells(stats) + cell_width(header.status.text) + 1 + cell_width(time.text) + 5
            <= width,
    ensures
        exists|dots: nat|
            dots > 0 && spans_text(header_spans(header, header_fit(header, width), width))
                == header.bar.text + " "@ + header.action.text + " "@ + target.text + " "@
                + segs_text(stats) + " "@ + #[trigger] repeated('·', dots) + " "@
                + header.status.text + " "@ + time.text,
{
    reveal_strlit(" ");
    let fit = with_parts(header, true, true);
    assert(header_fit(header, width) == fit);
    let dots = leader(header, fit, width);
    let a = Seq::<SpanView>::empty();
    one_more_span(a, of_piece(header.bar));
    let b = a.push(of_piece(header.bar));
    one_more_span(b, blank_span());
    let c = b.push(blank_span());
    one_more_span(c, of_piece(header.action));
    let d = c.push(of_piece(header.action));
    assert(d =~= seq![of_piece(header.bar), blank_span(), of_piece(header.action)]);
    one_more_span(d, blank_span());
    let e = d.push(blank_span());
    let aimed = of_piece(PieceView { text: target.text, ..target });
    one_more_span(e, aimed);
    let f = e.push(aimed);
    one_more_span(f, blank_span());
    let g = f.push(blank_span());
    let counts = stats.map_values(|s: SegView| of_seg(s));
    texts_of_segs(stats);
    crate::app::prose::flow::spans_text_add(g, counts);
    let h = g + counts;
    one_more_span(h, blank_span());
    let i = h.push(blank_span());
    let led = span(repeated('·', dots), in_color(ProseColor::Border));
    one_more_span(i, led);
    let j = i.push(led);
    one_more_span(j, blank_span());
    let k = j.push(blank_span());
    one_more_span(k, of_piece(header.status));
    let l = k.push(of_piece(header.status));
    one_more_span(l, blank_span());
    let m = l.push(blank_span());
    one_more_span(m, of_piece(time));
    let all = m.push(of_piece(time));
    assert(header_spans(header, fit, width) == all);
    assert(spans_text(a) =~= Seq::<char>::empty());
    assert(Seq::<char>::empty() + header.bar.text =~= header.bar.text);
    assert(spans_text(all) == header.bar.text + " "@ + header.action.text + " "@ + target.text
        + " "@ + segs_text(stats) + " "@ + repeated('·', dots) + " "@ + header.status.text + " "@
        + time.text);
}

/// With less room the target shrinks first, then the counts go, and the time goes
/// only with them; how a call ended is never given up.
pub proof fn headers_give_up_the_counts_first(header: HeaderView, width: nat)
    ensures
        ({
            let fit = header_fit(header, width);
            &&& fit.time is None && header.time is Some ==> fit.stats is None
            &&& fit.stats is Some ==> fit.stats == header.stats && fit.time == header.time
            &&& fit.time is Some ==> fit.time == header.time
            &&& leader(header, with_parts(header, true, true), width) >= 1 ==> fit == with_parts(
                header,
                true,
                true,
            )
        }),
{
}

/// A think header tells how long the thought took, where that is known.
pub proof fn think_headers_tell_the_time(elapsed: u64, width: nat)
    requires
        width > 0,
        think_elapsed_text(elapsed).len() > 0,
    ensures
        ({
            let spans = think_header(Some(elapsed), width).spans;
            &&& spans is Some
            &&& spans.unwrap().len() >= 3
            &&& spans.unwrap()[0].text == "▎ "@
            &&& spans.unwrap()[1].text == "Thought for "@
            &&& spans.unwrap()[2].text == think_elapsed_text(elapsed)
        }),
{
}

} // verus!
