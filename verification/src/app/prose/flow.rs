//! Span-aware soft wrapping.

use vstd::prelude::*;

use super::style::{spans_cells, spans_text, spans_width, ProseSpan, ProseStyle, SpanView};
use crate::app::text;
use crate::app::text::{
    cell_width, cells_of, content, measured, pieces_within, takes_at_most, weighed, ClusterView,
};
use crate::strs;

verus! {

/// One styled grapheme cluster with its cells.
#[derive(Debug)]
pub struct Glyph {
    pub text: String,
    pub cells: usize,
    pub style: ProseStyle,
}

/// A [`Glyph`] as a mathematical value.
pub struct GlyphView {
    pub text: Seq<char>,
    pub cells: nat,
    pub style: ProseStyle,
}

impl DeepView for Glyph {
    type V = GlyphView;

    open spec fn deep_view(&self) -> GlyphView {
        GlyphView { text: self.text@, cells: self.cells as nat, style: self.style }
    }
}

/// The clusters of one span, each in the span's style.
pub open spec fn span_glyphs(span: SpanView) -> Seq<GlyphView> {
    measured(span.text).map_values(
        |c: ClusterView| GlyphView { text: c.text, cells: c.cells, style: span.style },
    )
}

/// The clusters of all the spans, in order.
pub open spec fn glyphs_of(spans: Seq<SpanView>) -> Seq<GlyphView>
    decreases spans.len(),
{
    if spans.len() == 0 {
        Seq::empty()
    } else {
        glyphs_of(spans.drop_last()) + span_glyphs(spans.last())
    }
}

/// The text of a run of glyphs.
pub open spec fn glyphs_text(glyphs: Seq<GlyphView>) -> Seq<char>
    decreases glyphs.len(),
{
    if glyphs.len() == 0 {
        Seq::empty()
    } else {
        glyphs_text(glyphs.drop_last()) + glyphs.last().text
    }
}

/// The cells of a run of glyphs.
pub open spec fn glyphs_cells(glyphs: Seq<GlyphView>) -> nat
    decreases glyphs.len(),
{
    if glyphs.len() == 0 {
        0
    } else {
        glyphs_cells(glyphs.drop_last()) + glyphs.last().cells
    }
}

/// The last glyph of a row that holds a blank, or -1.
pub open spec fn last_blank(row: Seq<GlyphView>) -> int
    decreases row.len(),
{
    if row.len() == 0 {
        -1
    } else if row.last().text.contains(' ') {
        row.len() - 1
    } else {
        last_blank(row.drop_last())
    }
}

/// How many glyphs stay on a row that is full: everything up to and with its
/// last blank where something stands before it, all of them otherwise.
pub open spec fn break_point(row: Seq<GlyphView>) -> int {
    if last_blank(row) > 0 {
        last_blank(row) + 1
    } else {
        row.len() as int
    }
}

/// The row with one more piece of text: part of the last span where the styles
/// agree, a span of its own otherwise.
pub open spec fn attach(row: Seq<SpanView>, text: Seq<char>, style: ProseStyle) -> Seq<SpanView> {
    if row.len() > 0 && row.last().style == style {
        row.drop_last().push(SpanView { text: row.last().text + text, style })
    } else {
        row.push(SpanView { text, style })
    }
}

/// A row of glyphs as spans.
pub open spec fn row_spans(row: Seq<GlyphView>) -> Seq<SpanView>
    decreases row.len(),
{
    if row.len() == 0 {
        Seq::empty()
    } else {
        attach(row_spans(row.drop_last()), row.last().text, row.last().style)
    }
}

/// The finished rows, the row being filled, and how many glyphs of it were carried
/// over from the row before.
pub struct WrapView {
    pub rows: Seq<Seq<GlyphView>>,
    pub row: Seq<GlyphView>,
    pub carried: nat,
}

/// The cells used on a row: the word carried over measured span by span, what was
/// placed behind it glyph by glyph.
pub open spec fn used_cells(row: Seq<GlyphView>, carried: nat) -> nat {
    spans_cells(row_spans(row.take(carried as int))) + glyphs_cells(row.skip(carried as int))
}

/// Whether something visible stands on the row being filled and a glyph does not
/// fit beside it.
pub open spec fn is_full(state: WrapView, glyph: GlyphView, width: nat) -> bool {
    let used = used_cells(state.row, state.carried);
    used > 0 && used + glyph.cells > width
}

/// Ends the row being filled; what stood behind its break begins the next.
pub open spec fn end_row(state: WrapView) -> WrapView {
    let at = break_point(state.row);
    WrapView {
        rows: state.rows.push(state.row.take(at)),
        row: state.row.skip(at),
        carried: (state.row.len() - at) as nat,
    }
}

/// Ends the row being filled where a glyph does not fit, and the word carried
/// over where the glyph does not fit beside that either.
pub open spec fn made_room(state: WrapView, glyph: GlyphView, width: nat) -> WrapView {
    if !is_full(state, glyph, width) {
        state
    } else {
        let ended = end_row(state);
        if is_full(ended, glyph, width) {
            WrapView { rows: ended.rows.push(ended.row), row: Seq::empty(), carried: 0 }
        } else {
            ended
        }
    }
}

/// The state after all glyphs are placed.
pub open spec fn placed(glyphs: Seq<GlyphView>, width: nat) -> WrapView
    decreases glyphs.len(),
{
    if glyphs.len() == 0 {
        WrapView { rows: Seq::empty(), row: Seq::empty(), carried: 0 }
    } else {
        let ready = made_room(placed(glyphs.drop_last(), width), glyphs.last(), width);
        WrapView {
            rows: ready.rows,
            row: ready.row.push(glyphs.last()),
            carried: ready.carried,
        }
    }
}

/// The rows of at most `width` cells that the glyphs fill; none at all in zero
/// cells.
pub open spec fn glyph_rows(glyphs: Seq<GlyphView>, width: nat) -> Seq<Seq<GlyphView>> {
    if width == 0 {
        Seq::empty()
    } else {
        placed(glyphs, width).rows.push(placed(glyphs, width).row)
    }
}

/// [`glyph_rows`] as spans.
pub open spec fn wrapped_glyphs(glyphs: Seq<GlyphView>, width: nat) -> Seq<Seq<SpanView>> {
    glyph_rows(glyphs, width).map_values(|row: Seq<GlyphView>| row_spans(row))
}

/// [`wrapped_glyphs`] of the spans' clusters.
pub open spec fn wrapped_spans(spans: Seq<SpanView>, width: nat) -> Seq<Seq<SpanView>> {
    wrapped_glyphs(glyphs_of(spans), width)
}

fn has_blank(text: &str) -> (yes: bool)
    ensures
        yes == text@.contains(' '),
{
    let chars = strs::chars_of(text);
    let mut i: usize = 0;
    while i < chars.len()
        invariant
            i <= chars.len(),
            chars@ == text@,
            forall|k: int| 0 <= k < i ==> chars@[k] != ' ',
        decreases chars.len() - i,
    {
        if chars[i] == ' ' {
            assert(text@[i as int] == ' ');
            return true;
        }
        i += 1;
    }
    false
}

/// Where the row of the glyphs from `from` to `to` ends when it is full: behind
/// its last blank, which stays as a trailing cell, or at `to` when the row has no
/// interior blank to break at.
pub fn word_break(glyphs: &Vec<Glyph>, from: usize, to: usize) -> (end: usize)
    requires
        from <= to <= glyphs.len(),
    ensures
        from <= end <= to,
        end == from + break_point(glyphs.deep_view().subrange(from as int, to as int)),
{
    let ghost all = glyphs.deep_view();
    let ghost row = all.subrange(from as int, to as int);
    let mut i: usize = to;
    proof {
        assert(row.take((i - from) as int) =~= row);
    }
    while i > from
        invariant
            from <= i <= to <= glyphs.len(),
            all == glyphs.deep_view(),
            row == all.subrange(from as int, to as int),
            last_blank(row) == last_blank(row.take((i - from) as int)),
        decreases i,
    {
        proof {
            let k = (i - from) as int;
            assert(row.take(k).drop_last() =~= row.take(k - 1));
            assert(row.take(k).last() == all[i - 1]);
            assert(all[i - 1].text == glyphs@[i - 1].text@);
        }
        i -= 1;
        if has_blank(glyphs[i].text.as_str()) {
            if i > from {
                return i + 1;
            }
            return to;
        }
    }
    to
}

/// The spans of the glyphs from `from` to `to`.
fn bake_row(glyphs: &Vec<Glyph>, from: usize, to: usize) -> (spans: Vec<ProseSpan>)
    requires
        from <= to <= glyphs.len(),
    ensures
        spans.deep_view() == row_spans(glyphs.deep_view().subrange(from as int, to as int)),
{
    let ghost all = glyphs.deep_view();
    let mut spans: Vec<ProseSpan> = Vec::new();
    let mut i: usize = from;
    proof {
        assert(spans.deep_view() =~= Seq::<SpanView>::empty());
    }
    while i < to
        invariant
            from <= i <= to <= glyphs.len(),
            all == glyphs.deep_view(),
            spans.deep_view() == row_spans(all.subrange(from as int, i as int)),
        decreases to - i,
    {
        let ghost row = spans.deep_view();
        let piece = glyphs[i].text.clone();
        let style = glyphs[i].style;
        match spans.pop() {
            Some(last) => {
                if last.style == style {
                    let text = strs::cat(last.text.as_str(), piece.as_str());
                    spans.push(ProseSpan::new(text, style));
                } else {
                    spans.push(last);
                    spans.push(ProseSpan::new(piece, style));
                }
            },
            None => {
                spans.push(ProseSpan::new(piece, style));
            },
        }
        proof {
            let next = all.subrange(from as int, i + 1);
            assert(next.drop_last() =~= all.subrange(from as int, i as int));
            assert(next.last() == all[i as int]);
            assert(spans.deep_view() =~= attach(row, all[i as int].text, style));
        }
        i += 1;
    }
    spans
}

fn push_row(rows: &mut Vec<Vec<ProseSpan>>, row: Vec<ProseSpan>)
    ensures
        final(rows).deep_view() == old(rows).deep_view().push(row.deep_view()),
{
    let ghost before = rows.deep_view();
    rows.push(row);
    proof {
        assert(rows.deep_view() =~= before.push(row.deep_view()));
    }
}

/// Wraps styled clusters into display rows.
pub fn wrap_glyphs(glyphs: &Vec<Glyph>, width: usize) -> (rows: Vec<Vec<ProseSpan>>)
    ensures
        rows.deep_view() == wrapped_glyphs(glyphs.deep_view(), width as nat),
{
    let ghost all = glyphs.deep_view();
    let ghost max = width as nat;
    let mut rows: Vec<Vec<ProseSpan>> = Vec::new();
    if width == 0 {
        proof {
            assert(rows.deep_view() =~= wrapped_glyphs(all, max));
        }
        return rows;
    }
    let mut start: usize = 0;
    let mut used: usize = 0;
    let mut i: usize = 0;
    proof {
        assert(all.take(0) =~= Seq::<GlyphView>::empty());
        assert(rows.deep_view() =~= spans_of_rows(placed(all.take(0), max).rows));
        assert(all.subrange(0, 0) =~= placed(all.take(0), max).row);
        empty_row_is_unused();
    }
    while i < glyphs.len()
        invariant
            start <= i <= glyphs.len(),
            all == glyphs.deep_view(),
            max == width,
            rows.deep_view() == spans_of_rows(placed(all.take(i as int), max).rows),
            all.subrange(start as int, i as int) == placed(all.take(i as int), max).row,
            used == used_cells(
                placed(all.take(i as int), max).row,
                placed(all.take(i as int), max).carried,
            ),
            placed(all.take(i as int), max).carried <= i - start,
        decreases glyphs.len() - i,
    {
        let ghost state = placed(all.take(i as int), max);
        let ghost glyph = all[i as int];
        let cells = glyphs[i].cells;
        proof {
            assert(all.take(i as int + 1).drop_last() =~= all.take(i as int));
            assert(all.take(i as int + 1).last() == glyph);
            assert(glyphs@[i as int].deep_view() == glyph);
        }
        if used > 0 && (cells > width || used > width - cells) {
            let end = word_break(glyphs, start, i);
            let ghost ended = end_row(state);
            let ghost at = break_point(state.row);
            proof {
                assert(all.subrange(start as int, end as int) =~= state.row.take(at));
                assert(all.subrange(end as int, i as int) =~= ended.row);
                spans_of_rows_push(state.rows, state.row.take(at));
                carried_row_is_its_spans(ended.row);
            }
            push_row(&mut rows, bake_row(glyphs, start, end));
            start = end;
            let tail = bake_row(glyphs, start, i);
            used = spans_width(&tail);
            if used > 0 && (cells > width || used > width - cells) {
                proof {
                    spans_of_rows_push(ended.rows, ended.row);
                    assert(all.subrange(i as int, i as int) =~= Seq::<GlyphView>::empty());
                    empty_row_is_unused();
                }
                push_row(&mut rows, tail);
                start = i;
                used = 0;
            }
        }
        proof {
            let ready = made_room(state, glyph, max);
            assert(all.subrange(start as int, i as int) == ready.row);
            assert(rows.deep_view() == spans_of_rows(ready.rows));
            assert(all.subrange(start as int, i + 1) =~= ready.row.push(glyph));
            assert(used == used_cells(ready.row, ready.carried));
            placing_uses_its_cells(ready.row, ready.carried, glyph);
            assert(placed(all.take(i as int + 1), max).row == ready.row.push(glyph));
        }
        used += cells;
        i += 1;
    }
    proof {
        assert(all.take(i as int) =~= all);
        spans_of_rows_push(placed(all, max).rows, placed(all, max).row);
    }
    push_row(&mut rows, bake_row(glyphs, start, i));
    rows
}

proof fn empty_row_is_unused()
    ensures
        used_cells(Seq::<GlyphView>::empty(), 0) == 0,
{
    let none = Seq::<GlyphView>::empty();
    assert(none.take(0) =~= none);
    assert(none.skip(0) =~= none);
}

proof fn carried_row_is_its_spans(row: Seq<GlyphView>)
    ensures
        used_cells(row, row.len()) == spans_cells(row_spans(row)),
{
    assert(row.take(row.len() as int) =~= row);
    assert(row.skip(row.len() as int) =~= Seq::<GlyphView>::empty());
}

proof fn placing_uses_its_cells(row: Seq<GlyphView>, carried: nat, glyph: GlyphView)
    requires
        carried <= row.len(),
    ensures
        used_cells(row.push(glyph), carried) == used_cells(row, carried) + glyph.cells,
{
    let k = carried as int;
    assert(row.push(glyph).take(k) =~= row.take(k));
    assert(row.push(glyph).skip(k).drop_last() =~= row.skip(k));
    assert(row.push(glyph).skip(k).last() == glyph);
}

/// The styled clusters of a run of spans.
pub fn measure_spans(spans: &Vec<ProseSpan>) -> (glyphs: Vec<Glyph>)
    ensures
        glyphs.deep_view() == glyphs_of(spans.deep_view()),
        glyphs_text(glyphs.deep_view()) == spans_text(spans.deep_view()),
        glyphs_styled(glyphs.deep_view()) == spans_styled(spans.deep_view()),
{
    let ghost all = spans.deep_view();
    let mut glyphs: Vec<Glyph> = Vec::new();
    let mut i: usize = 0;
    proof {
        assert(glyphs.deep_view() =~= glyphs_of(all.take(0)));
    }
    while i < spans.len()
        invariant
            i <= spans.len(),
            all == spans.deep_view(),
            glyphs.deep_view() == glyphs_of(all.take(i as int)),
            glyphs_text(glyphs.deep_view()) == spans_text(all.take(i as int)),
            glyphs_styled(glyphs.deep_view()) == spans_styled(all.take(i as int)),
        decreases spans.len() - i,
    {
        let style = spans[i].style;
        let clusters = text::measure(spans[i].text.as_str());
        let ghost items = clusters.deep_view();
        let ghost start = glyphs.deep_view();
        let ghost added = span_glyphs(all[i as int]);
        proof {
            assert(all.take(i as int + 1).drop_last() =~= all.take(i as int));
            assert(all.take(i as int + 1).last() == all[i as int]);
            assert(start + added.take(0) =~= start);
            assert(glyphs_text(start) =~= glyphs_text(start) + content(items.take(0)));
            assert(glyphs_styled(start) =~= glyphs_styled(start) + styled_text(
                content(items.take(0)),
                style,
            ));
        }
        let mut j: usize = 0;
        while j < clusters.len()
            invariant
                j <= clusters.len(),
                items == clusters.deep_view(),
                i < spans.len(),
                style == all[i as int].style,
                items == measured(all[i as int].text),
                added == span_glyphs(all[i as int]),
                glyphs.deep_view() == start + added.take(j as int),
                glyphs_text(glyphs.deep_view()) == glyphs_text(start) + content(
                    items.take(j as int),
                ),
                glyphs_styled(glyphs.deep_view()) == glyphs_styled(start) + styled_text(
                    content(items.take(j as int)),
                    style,
                ),
            decreases clusters.len() - j,
        {
            let ghost before = glyphs.deep_view();
            let glyph = Glyph { text: clusters[j].text.clone(), cells: clusters[j].cells, style };
            glyphs.push(glyph);
            proof {
                assert(glyphs.deep_view() =~= before.push(glyph.deep_view()));
                assert(glyphs.deep_view().drop_last() =~= before);
                assert(glyph.deep_view() == added[j as int]);
                assert(start + added.take(j as int + 1) =~= before.push(added[j as int]));
                assert(items.take(j as int + 1).drop_last() =~= items.take(j as int));
                assert(glyphs_text(glyphs.deep_view()) =~= glyphs_text(start) + content(
                    items.take(j as int + 1),
                ));
                assert(glyphs_styled(glyphs.deep_view()) =~= glyphs_styled(start) + styled_text(
                    content(items.take(j as int + 1)),
                    style,
                ));
            }
            j += 1;
        }
        proof {
            assert(added.take(j as int) =~= added);
            assert(items.take(j as int) =~= items);
        }
        i += 1;
    }
    proof {
        assert(all.take(i as int) =~= all);
    }
    glyphs
}

/// Soft-wraps styled spans into display rows of at most `width` cells, never
/// splitting a grapheme. Breaks at the last space of the row when there is one;
/// falls back to a hard break for spaceless runs. Style context survives every
/// break, and the rows together hold the whole text, each character in its style.
pub fn wrap_spans(input: &Vec<ProseSpan>, width: usize) -> (rows: Vec<Vec<ProseSpan>>)
    ensures
        rows.deep_view() == wrapped_spans(input.deep_view(), width as nat),
        width > 0 ==> rows_text(rows.deep_view()) == spans_text(input.deep_view()),
        width > 0 ==> rows_styled(rows.deep_view()) == spans_styled(input.deep_view()),
{
    let glyphs = measure_spans(input);
    proof {
        if width > 0 {
            wrapping_keeps_text_and_style(glyphs.deep_view(), width as nat);
        }
    }
    wrap_glyphs(&glyphs, width)
}

// ---------------------------------------------------------------------------
// Laws
// ---------------------------------------------------------------------------

/// The text of rows of spans, one after the other.
pub open spec fn rows_text(rows: Seq<Seq<SpanView>>) -> Seq<char>
    decreases rows.len(),
{
    if rows.len() == 0 {
        Seq::empty()
    } else {
        rows_text(rows.drop_last()) + spans_text(rows.last())
    }
}

/// A text, each character with the style it is in.
pub open spec fn styled_text(text: Seq<char>, style: ProseStyle) -> Seq<(char, ProseStyle)> {
    text.map_values(|c: char| (c, style))
}

/// The characters of a run of spans, each with its style.
pub open spec fn spans_styled(spans: Seq<SpanView>) -> Seq<(char, ProseStyle)>
    decreases spans.len(),
{
    if spans.len() == 0 {
        Seq::empty()
    } else {
        spans_styled(spans.drop_last()) + styled_text(spans.last().text, spans.last().style)
    }
}

/// The characters of rows of spans, one after the other, each with its style.
pub open spec fn rows_styled(rows: Seq<Seq<SpanView>>) -> Seq<(char, ProseStyle)>
    decreases rows.len(),
{
    if rows.len() == 0 {
        Seq::empty()
    } else {
        rows_styled(rows.drop_last()) + spans_styled(rows.last())
    }
}

/// The characters of a run of glyphs, each with its style.
pub open spec fn glyphs_styled(glyphs: Seq<GlyphView>) -> Seq<(char, ProseStyle)>
    decreases glyphs.len(),
{
    if glyphs.len() == 0 {
        Seq::empty()
    } else {
        glyphs_styled(glyphs.drop_last()) + styled_text(glyphs.last().text, glyphs.last().style)
    }
}

/// The glyphs of rows, one after the other.
pub open spec fn rows_glyphs(rows: Seq<Seq<GlyphView>>) -> Seq<GlyphView>
    decreases rows.len(),
{
    if rows.len() == 0 {
        Seq::empty()
    } else {
        rows_glyphs(rows.drop_last()) + rows.last()
    }
}

/// Rows of glyphs as rows of spans.
pub open spec fn spans_of_rows(rows: Seq<Seq<GlyphView>>) -> Seq<Seq<SpanView>> {
    rows.map_values(|row: Seq<GlyphView>| row_spans(row))
}

proof fn spans_of_rows_push(rows: Seq<Seq<GlyphView>>, row: Seq<GlyphView>)
    ensures
        spans_of_rows(rows.push(row)) == spans_of_rows(rows).push(row_spans(row)),
{
    assert(spans_of_rows(rows.push(row)) =~= spans_of_rows(rows).push(row_spans(row)));
}

pub proof fn spans_text_add(a: Seq<SpanView>, b: Seq<SpanView>)
    ensures
        spans_text(a + b) == spans_text(a) + spans_text(b),
    decreases b.len(),
{
    if b.len() == 0 {
        assert(a + b =~= a);
        assert(spans_text(a) + spans_text(b) =~= spans_text(a));
    } else {
        assert((a + b).drop_last() =~= a + b.drop_last());
        spans_text_add(a, b.drop_last());
        assert(spans_text(a + b) =~= spans_text(a) + spans_text(b));
    }
}

proof fn cells_of_two(a: Seq<GlyphView>, b: Seq<GlyphView>)
    ensures
        glyphs_cells(a + b) == glyphs_cells(a) + glyphs_cells(b),
    decreases b.len(),
{
    if b.len() == 0 {
        assert(a + b =~= a);
    } else {
        assert((a + b).drop_last() =~= a + b.drop_last());
        cells_of_two(a, b.drop_last());
    }
}

proof fn last_blank_is_last(row: Seq<GlyphView>)
    ensures
        -1 <= last_blank(row) < row.len(),
        last_blank(row) >= 0 ==> row[last_blank(row)].text.contains(' '),
        forall|i: int|
            last_blank(row) < i < row.len() ==> !(#[trigger] row[i]).text.contains(' '),
    decreases row.len(),
{
    if row.len() > 0 && !row.last().text.contains(' ') {
        let before = row.drop_last();
        last_blank_is_last(before);
        assert forall|i: int| last_blank(row) < i < row.len() implies !(#[trigger] row[i]).text.contains(
            ' ',
        ) by {
            if i < before.len() {
                assert(row[i] == before[i]);
            }
        }
    }
}

/// Whether a row takes at most `width` cells, or ends with a glyph wider than that
/// behind nothing visible.
pub open spec fn row_fits(row: Seq<GlyphView>, width: nat) -> bool {
    takes_at_most(glyphs_text(row), width) || (row.len() > 0 && row.last().cells > width
        && takes_at_most(glyphs_text(row.drop_last()), 0))
}

/// Whether the cells of every glyph are its width.
pub open spec fn all_weighed(glyphs: Seq<GlyphView>) -> bool {
    forall|i: int| 0 <= i < glyphs.len() ==> weighed(cluster_of(#[trigger] glyphs[i]))
}

/// Whether glyphs take at most `width` cells together, or all but the last of them
/// none.
spec fn glyphs_fit(glyphs: Seq<GlyphView>, width: nat) -> bool {
    glyphs_cells(glyphs) <= width || (glyphs.len() > 0 && glyphs_cells(glyphs.drop_last()) == 0)
}

/// What holds of the row being filled: the carried word has no blank and fits by
/// its glyphs, and so does the whole row by the cells used on it.
spec fn row_holds(row: Seq<GlyphView>, carried: nat, width: nat) -> bool {
    &&& carried <= row.len()
    &&& glyphs_fit(row.take(carried as int), width)
    &&& forall|i: int| 0 <= i < carried ==> !(#[trigger] row[i]).text.contains(' ')
    &&& carried < row.len() ==> used_cells(row, carried) <= width || used_cells(
        row.drop_last(),
        carried,
    ) == 0
}

proof fn spans_within(spans: Seq<SpanView>)
    requires
        spans_cells(spans) < usize::MAX,
    ensures
        takes_at_most(spans_text(spans), spans_cells(spans)),
    decreases spans.len(),
{
    if spans.len() == 0 {
        let none = Seq::<ClusterView>::empty();
        assert(pieces_within(none, spans_text(spans), 0));
    } else {
        let last = spans.last().text;
        let piece = ClusterView { text: last, cells: cell_width(last) as nat };
        spans_within(spans.drop_last());
        text::single_cluster(piece);
        assert(pieces_within(seq![piece], last, cell_width(last) as nat));
        text::room_adds_up(
            spans_text(spans.drop_last()),
            spans_cells(spans.drop_last()),
            last,
            cell_width(last) as nat,
        );
    }
}

proof fn glyphs_within(glyphs: Seq<GlyphView>)
    requires
        all_weighed(glyphs),
    ensures
        takes_at_most(glyphs_text(glyphs), glyphs_cells(glyphs)),
{
    let items = glyphs.map_values(|g: GlyphView| cluster_of(g));
    clusters_of_row(glyphs);
    assert(pieces_within(items, glyphs_text(glyphs), glyphs_cells(glyphs)));
}

/// A row takes no more than the cells used on it.
proof fn row_within(row: Seq<GlyphView>, carried: nat)
    requires
        carried <= row.len(),
        all_weighed(row),
        used_cells(row, carried) < usize::MAX,
    ensures
        takes_at_most(glyphs_text(row), used_cells(row, carried)),
{
    let k = carried as int;
    let head = row.take(k);
    let rest = row.skip(k);
    assert(row =~= head + rest);
    assert forall|i: int| 0 <= i < rest.len() implies weighed(cluster_of(#[trigger] rest[i])) by {
        assert(rest[i] == row[i + k]);
    }
    spans_within(row_spans(head));
    row_keeps_its_characters(head);
    glyphs_within(rest);
    glyphs_of_two(head, rest);
    text::room_adds_up(
        glyphs_text(head),
        spans_cells(row_spans(head)),
        glyphs_text(rest),
        glyphs_cells(rest),
    );
}

proof fn room_grows(text: Seq<char>, less: nat, more: nat)
    requires
        takes_at_most(text, less),
        less <= more,
    ensures
        takes_at_most(text, more),
{
    let items = choose|items: Seq<ClusterView>| pieces_within(items, text, less);
    assert(pieces_within(items, text, more));
}

/// Part of a row behind the carried word uses no more than the whole row.
proof fn prefix_uses_less(row: Seq<GlyphView>, carried: nat, to: int)
    requires
        carried <= to <= row.len(),
    ensures
        used_cells(row.take(to), carried) <= used_cells(row, carried),
{
    let k = carried as int;
    assert(row.take(to).take(k) =~= row.take(k));
    assert(row.skip(k) =~= row.take(to).skip(k) + row.skip(to));
    cells_of_two(row.take(to).skip(k), row.skip(to));
}

/// A row that is ended fits, whether it is broken at a blank or whole.
proof fn ended_row_fits(row: Seq<GlyphView>, carried: nat, width: nat, to: int)
    requires
        row_holds(row, carried, width),
        all_weighed(row),
        carried < to <= row.len() || to == row.len(),
        width < usize::MAX,
    ensures
        row_fits(row.take(to), width),
{
    let head = row.take(to);
    assert forall|i: int| 0 <= i < head.len() implies weighed(cluster_of(#[trigger] head[i])) by {
        assert(head[i] == row[i]);
    }
    if carried == row.len() {
        assert(row.take(carried as int) =~= row);
        assert(head =~= row);
        word_fits(row, width);
    } else if used_cells(row, carried) <= width {
        prefix_uses_less(row, carried, to);
        row_within(head, carried);
        room_grows(glyphs_text(head), used_cells(head, carried), width);
    } else {
        let shown = row.drop_last();
        let last = row.last();
        assert(shown.push(last) =~= row);
        placing_uses_its_cells(shown, carried, last);
        assert forall|i: int| 0 <= i < shown.len() implies weighed(
            cluster_of(#[trigger] shown[i]),
        ) by {
            assert(shown[i] == row[i]);
        }
        if to == row.len() {
            assert(head =~= row);
            row_within(shown, carried);
        } else {
            assert(head =~= shown.take(to));
            prefix_uses_less(shown, carried, to);
            row_within(head, carried);
            room_grows(glyphs_text(head), used_cells(head, carried), width);
        }
    }
}

/// A word that fits by its glyphs fits.
proof fn word_fits(word: Seq<GlyphView>, width: nat)
    requires
        glyphs_fit(word, width),
        all_weighed(word),
    ensures
        row_fits(word, width),
{
    glyphs_within(word);
    if glyphs_cells(word) <= width {
        room_grows(glyphs_text(word), glyphs_cells(word), width);
    } else {
        let shown = word.drop_last();
        assert forall|i: int| 0 <= i < shown.len() implies weighed(
            cluster_of(#[trigger] shown[i]),
        ) by {
            assert(shown[i] == word[i]);
        }
        glyphs_within(shown);
    }
}

/// The word behind the break of a row fits by its glyphs.
proof fn carried_word_fits(row: Seq<GlyphView>, carried: nat, width: nat, from: int)
    requires
        row_holds(row, carried, width),
        carried < from <= row.len() || from == row.len(),
    ensures
        glyphs_fit(row.skip(from), width),
{
    let word = row.skip(from);
    let k = carried as int;
    if from < row.len() {
        assert(row.skip(k) =~= row.subrange(k, from) + word);
        cells_of_two(row.subrange(k, from), word);
        if used_cells(row, carried) > width {
            let shown = row.drop_last();
            assert(shown.take(k) =~= row.take(k));
            assert(shown.skip(k) =~= row.subrange(k, from) + word.drop_last());
            cells_of_two(row.subrange(k, from), word.drop_last());
        }
    } else {
        assert(word =~= Seq::<GlyphView>::empty());
    }
}

/// Whether a row that another follows breaks at a blank wherever it can: one that
/// has a blank behind its first glyph ends with a blank.
pub open spec fn ends_at_blank(row: Seq<GlyphView>) -> bool {
    (exists|i: int| 0 < i < row.len() && (#[trigger] row[i]).text.contains(' '))
        ==> row.last().text.contains(' ')
}

proof fn part_is_weighed(glyphs: Seq<GlyphView>, from: int, to: int)
    requires
        all_weighed(glyphs),
        0 <= from <= to <= glyphs.len(),
    ensures
        all_weighed(glyphs.subrange(from, to)),
{
    let part = glyphs.subrange(from, to);
    assert forall|i: int| 0 <= i < part.len() implies weighed(cluster_of(#[trigger] part[i])) by {
        assert(part[i] == glyphs[from + i]);
    }
}

/// What holds while glyphs are placed: every finished row breaks at a blank where
/// it can, and no glyph is lost or moved.
proof fn placing_keeps_the_glyphs(glyphs: Seq<GlyphView>, width: nat)
    ensures
        forall|i: int|
            0 <= i < placed(glyphs, width).rows.len() ==> ends_at_blank(
                #[trigger] placed(glyphs, width).rows[i],
            ),
        rows_glyphs(placed(glyphs, width).rows) + placed(glyphs, width).row == glyphs,
    decreases glyphs.len(),
{
    if glyphs.len() == 0 {
        assert(rows_glyphs(placed(glyphs, width).rows) + placed(glyphs, width).row =~= glyphs);
    } else {
        let state = placed(glyphs.drop_last(), width);
        let glyph = glyphs.last();
        placing_keeps_the_glyphs(glyphs.drop_last(), width);
        let ended = end_row(state);
        let ready = made_room(state, glyph, width);
        let at = break_point(state.row);
        last_blank_is_last(state.row);
        let head = state.row.take(at);
        assert(head + ended.row =~= state.row);
        if is_full(state, glyph, width) {
            assert(ends_at_blank(head)) by {
                if last_blank(state.row) > 0 {
                    assert(head.last() == state.row[last_blank(state.row)]);
                } else {
                    assert forall|i: int| 0 < i < head.len() implies !(
                    #[trigger] head[i]).text.contains(' ') by {
                        assert(head[i] == state.row[i]);
                    }
                }
            }
            assert(ends_at_blank(ended.row)) by {
                assert forall|i: int| 0 < i < ended.row.len() implies !(
                #[trigger] ended.row[i]).text.contains(' ') by {
                    assert(ended.row[i] == state.row[at + i]);
                }
            }
            assert(ended.rows.drop_last() =~= state.rows);
            assert(rows_glyphs(ended.rows) + ended.row =~= rows_glyphs(state.rows) + state.row);
            if is_full(ended, glyph, width) {
                assert(ready.rows.drop_last() =~= ended.rows);
                assert(rows_glyphs(ready.rows) + ready.row =~= rows_glyphs(ended.rows)
                    + ended.row);
            }
        }
        let row = ready.row.push(glyph);
        assert(rows_glyphs(ready.rows) + row =~= (rows_glyphs(ready.rows) + ready.row).push(glyph));
        assert(glyphs =~= glyphs.drop_last().push(glyph));
    }
}

/// What holds of the widths while glyphs are placed.
proof fn placing_fits(glyphs: Seq<GlyphView>, width: nat)
    requires
        all_weighed(glyphs),
        width < usize::MAX,
    ensures
        row_holds(placed(glyphs, width).row, placed(glyphs, width).carried, width),
        all_weighed(placed(glyphs, width).row),
        forall|i: int|
            0 <= i < placed(glyphs, width).rows.len() ==> row_fits(
                #[trigger] placed(glyphs, width).rows[i],
                width,
            ),
    decreases glyphs.len(),
{
    if glyphs.len() == 0 {
        empty_row_is_unused();
        assert(placed(glyphs, width).row.take(0) =~= Seq::<GlyphView>::empty());
    } else {
        let before = glyphs.drop_last();
        let glyph = glyphs.last();
        assert(glyphs.subrange(0, before.len() as int) =~= before);
        part_is_weighed(glyphs, 0, before.len() as int);
        placing_fits(before, width);
        let state = placed(before, width);
        let ended = end_row(state);
        let ready = made_room(state, glyph, width);
        let at = break_point(state.row);
        let len = state.row.len() as int;
        assert(weighed(cluster_of(glyphs[glyphs.len() - 1])));
        if is_full(state, glyph, width) {
            last_blank_is_last(state.row);
            ended_row_fits(state.row, state.carried, width, at);
            carried_word_fits(state.row, state.carried, width, at);
            part_is_weighed(state.row, at, len);
            assert(state.row.subrange(at, len) =~= ended.row);
            if is_full(ended, glyph, width) {
                word_fits(ended.row, width);
                empty_row_is_unused();
            } else {
                assert forall|i: int| 0 <= i < ended.carried implies !(
                #[trigger] ended.row[i]).text.contains(' ') by {
                    assert(ended.row[i] == state.row[at + i]);
                }
                assert(ended.row.take(ended.carried as int) =~= ended.row);
            }
        }
        let row = ready.row.push(glyph);
        let k = ready.carried as int;
        placing_uses_its_cells(ready.row, ready.carried, glyph);
        assert(row.drop_last() =~= ready.row);
        assert(row.take(k) =~= ready.row.take(k));
        assert forall|i: int| 0 <= i < k implies !(#[trigger] row[i]).text.contains(' ') by {
            assert(row[i] == ready.row[i]);
        }
        assert forall|i: int| 0 <= i < row.len() implies weighed(cluster_of(#[trigger] row[i])) by {
            if i < ready.row.len() {
                assert(row[i] == ready.row[i]);
            }
        }
    }
}

/// Every row takes at most `width` cells, unless it ends with a glyph wider than
/// that behind nothing visible.
pub proof fn wrapped_rows_fit(glyphs: Seq<GlyphView>, width: nat)
    requires
        0 < width < usize::MAX,
        all_weighed(glyphs),
    ensures
        forall|i: int|
            0 <= i < glyph_rows(glyphs, width).len() ==> row_fits(
                #[trigger] glyph_rows(glyphs, width)[i],
                width,
            ),
{
    placing_fits(glyphs, width);
    let state = placed(glyphs, width);
    ended_row_fits(state.row, state.carried, width, state.row.len() as int);
    assert(state.row.take(state.row.len() as int) =~= state.row);
}

/// Every row but the last that has a blank behind its first glyph ends with one,
/// and the rows hold the glyphs in order.
pub proof fn wrapped_rows_break_at_blanks(glyphs: Seq<GlyphView>, width: nat)
    requires
        width > 0,
    ensures
        forall|i: int|
            0 <= i < glyph_rows(glyphs, width).len() - 1 ==> ends_at_blank(
                #[trigger] glyph_rows(glyphs, width)[i],
            ),
        rows_glyphs(glyph_rows(glyphs, width)) == glyphs,
{
    placing_keeps_the_glyphs(glyphs, width);
    let state = placed(glyphs, width);
    assert(glyph_rows(glyphs, width).drop_last() =~= state.rows);
}

proof fn row_keeps_its_characters(row: Seq<GlyphView>)
    ensures
        spans_text(row_spans(row)) == glyphs_text(row),
        spans_styled(row_spans(row)) == glyphs_styled(row),
    decreases row.len(),
{
    if row.len() > 0 {
        let before = row_spans(row.drop_last());
        let glyph = row.last();
        row_keeps_its_characters(row.drop_last());
        let after = row_spans(row);
        if before.len() > 0 && before.last().style == glyph.style {
            let merged = before.last().text + glyph.text;
            assert(after.drop_last() =~= before.drop_last());
            assert(spans_text(after) =~= spans_text(before) + glyph.text);
            assert(styled_text(merged, glyph.style) =~= styled_text(
                before.last().text,
                glyph.style,
            ) + styled_text(glyph.text, glyph.style));
            assert(spans_styled(after) =~= spans_styled(before) + styled_text(
                glyph.text,
                glyph.style,
            ));
        } else {
            assert(after.drop_last() =~= before);
        }
    }
}

proof fn glyphs_of_two(a: Seq<GlyphView>, b: Seq<GlyphView>)
    ensures
        glyphs_text(a + b) == glyphs_text(a) + glyphs_text(b),
        glyphs_styled(a + b) == glyphs_styled(a) + glyphs_styled(b),
    decreases b.len(),
{
    if b.len() == 0 {
        assert(a + b =~= a);
        assert(glyphs_text(a) + glyphs_text(b) =~= glyphs_text(a));
        assert(glyphs_styled(a) + glyphs_styled(b) =~= glyphs_styled(a));
    } else {
        assert((a + b).drop_last() =~= a + b.drop_last());
        glyphs_of_two(a, b.drop_last());
        assert(glyphs_text(a + b) =~= glyphs_text(a) + glyphs_text(b));
        assert(glyphs_styled(a + b) =~= glyphs_styled(a) + glyphs_styled(b));
    }
}

proof fn rows_keep_their_characters(rows: Seq<Seq<GlyphView>>)
    ensures
        rows_text(spans_of_rows(rows)) == glyphs_text(rows_glyphs(rows)),
        rows_styled(spans_of_rows(rows)) == glyphs_styled(rows_glyphs(rows)),
    decreases rows.len(),
{
    if rows.len() > 0 {
        rows_keep_their_characters(rows.drop_last());
        row_keeps_its_characters(rows.last());
        glyphs_of_two(rows_glyphs(rows.drop_last()), rows.last());
        assert(spans_of_rows(rows).drop_last() =~= spans_of_rows(rows.drop_last()));
    }
}

/// Wrapping keeps every character in its place and in its style: the rows
/// together are the glyphs.
pub proof fn wrapping_keeps_text_and_style(glyphs: Seq<GlyphView>, width: nat)
    requires
        width > 0,
    ensures
        rows_text(wrapped_glyphs(glyphs, width)) == glyphs_text(glyphs),
        rows_styled(wrapped_glyphs(glyphs, width)) == glyphs_styled(glyphs),
{
    wrapped_rows_break_at_blanks(glyphs, width);
    rows_keep_their_characters(glyph_rows(glyphs, width));
    assert(wrapped_glyphs(glyphs, width) =~= spans_of_rows(glyph_rows(glyphs, width)));
}

/// Where no cluster of the spans is wider than `width`, no row is.
pub proof fn wrapped_spans_fit(spans: Seq<SpanView>, width: nat)
    requires
        0 < width < usize::MAX,
        forall|i: int|
            0 <= i < glyphs_of(spans).len() ==> (#[trigger] glyphs_of(spans)[i]).cells <= width,
    ensures
        forall|i: int|
            0 <= i < wrapped_spans(spans, width).len() ==> takes_at_most(
                spans_text(#[trigger] wrapped_spans(spans, width)[i]),
                width,
            ),
{
    let glyphs = glyphs_of(spans);
    let rows = glyph_rows(glyphs, width);
    glyphs_are_weighed(spans);
    wrapped_rows_fit(glyphs, width);
    wrapped_rows_break_at_blanks(glyphs, width);
    assert forall|i: int| 0 <= i < wrapped_spans(spans, width).len() implies takes_at_most(
        spans_text(#[trigger] wrapped_spans(spans, width)[i]),
        width,
    ) by {
        let row = rows[i];
        assert(row_fits(row, width));
        row_keeps_its_characters(row);
        if row.len() > 0 {
            let at = place_in_rows(rows, i, row.len() - 1);
            assert(glyphs[at].cells <= width);
        }
    }
}

/// A glyph without its style.
pub open spec fn cluster_of(glyph: GlyphView) -> ClusterView {
    ClusterView { text: glyph.text, cells: glyph.cells }
}

proof fn clusters_of_row(row: Seq<GlyphView>)
    ensures
        content(row.map_values(|g: GlyphView| cluster_of(g))) == glyphs_text(row),
        cells_of(row.map_values(|g: GlyphView| cluster_of(g))) == glyphs_cells(row),
    decreases row.len(),
{
    if row.len() > 0 {
        clusters_of_row(row.drop_last());
        assert(row.map_values(|g: GlyphView| cluster_of(g)).drop_last() =~= row.drop_last().map_values(
            |g: GlyphView| cluster_of(g),
        ));
    }
}

proof fn glyphs_are_weighed(spans: Seq<SpanView>)
    ensures
        forall|i: int|
            0 <= i < glyphs_of(spans).len() ==> weighed(cluster_of(#[trigger] glyphs_of(spans)[i])),
    decreases spans.len(),
{
    if spans.len() > 0 {
        let before = glyphs_of(spans.drop_last());
        glyphs_are_weighed(spans.drop_last());
        assert forall|i: int| 0 <= i < glyphs_of(spans).len() implies weighed(
            cluster_of(#[trigger] glyphs_of(spans)[i]),
        ) by {
            if i < before.len() {
                assert(glyphs_of(spans)[i] == before[i]);
            } else {
                assert(glyphs_of(spans)[i] == span_glyphs(spans.last())[i - before.len()]);
            }
        }
    }
}

proof fn place_in_rows(rows: Seq<Seq<GlyphView>>, i: int, k: int) -> (at: int)
    requires
        0 <= i < rows.len(),
        0 <= k < rows[i].len(),
    ensures
        0 <= at < rows_glyphs(rows).len(),
        rows_glyphs(rows)[at] == rows[i][k],
    decreases rows.len(),
{
    let before = rows_glyphs(rows.drop_last());
    if i == rows.len() - 1 {
        assert(rows_glyphs(rows)[before.len() + k] == rows[i][k]);
        before.len() + k
    } else {
        let at = place_in_rows(rows.drop_last(), i, k);
        assert(rows_glyphs(rows)[at] == before[at]);
        at
    }
}

proof fn short_text_fills_no_row(glyphs: Seq<GlyphView>, width: nat)
    requires
        glyphs_cells(glyphs) <= width,
    ensures
        placed(glyphs, width) == (WrapView { rows: Seq::empty(), row: glyphs, carried: 0 }),
    decreases glyphs.len(),
{
    if glyphs.len() > 0 {
        let before = glyphs.drop_last();
        short_text_fills_no_row(before, width);
        let state = placed(before, width);
        assert(before.take(0) =~= Seq::<GlyphView>::empty());
        assert(before.skip(0) =~= before);
        assert(row_spans(before.take(0)) =~= Seq::<SpanView>::empty());
        assert(used_cells(state.row, state.carried) == glyphs_cells(before));
        assert(before.push(glyphs.last()) =~= glyphs);
    } else {
        assert(glyphs =~= Seq::<GlyphView>::empty());
    }
}

/// What fits on one row stays on one row.
pub proof fn short_text_stays_on_one_row(glyphs: Seq<GlyphView>, width: nat)
    requires
        width > 0,
        glyphs_cells(glyphs) <= width,
    ensures
        glyph_rows(glyphs, width) == seq![glyphs],
{
    short_text_fills_no_row(glyphs, width);
    assert(glyph_rows(glyphs, width) =~= seq![glyphs]);
}

} // verus!
