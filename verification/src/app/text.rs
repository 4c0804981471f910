//! Grapheme-safe helpers for text projected into terminal cells.

use unicode_segmentation::UnicodeSegmentation;
use unicode_width::UnicodeWidthStr;
use vstd::prelude::*;

use crate::strs;
use crate::strs::{begins, repeated, split_on};

verus! {

// ---------------------------------------------------------------------------
// Measuring
// ---------------------------------------------------------------------------

/// The display width of a text in terminal columns, outside of an East Asian
/// context.
pub uninterp spec fn cell_width(text: Seq<char>) -> usize;

/// The extended grapheme clusters of a text, in order.
pub uninterp spec fn grapheme_clusters(text: Seq<char>) -> Seq<Seq<char>>;

/// Whether every character is a printable ASCII character.
pub open spec fn printable_ascii(text: Seq<char>) -> bool {
    forall|i: int| 0 <= i < text.len() ==> ' ' <= #[trigger] text[i] <= '~'
}

/// Whether the first `n` characters of a text are printable ASCII and what
/// follows them, if anything, is printable ASCII too.
pub open spec fn plain_upto(text: Seq<char>, n: int) -> bool {
    &&& 0 <= n <= text.len()
    &&& printable_ascii(text.take(n))
    &&& n < text.len() ==> ' ' <= text[n] <= '~'
}

/// Each character of a text by itself.
pub open spec fn singles(text: Seq<char>) -> Seq<Seq<char>> {
    text.map_values(|c: char| seq![c])
}

/// `UnicodeWidthStr::width`: the width is a function of the text. No character
/// adds more than three columns to it, and each printable ASCII character of a
/// text that holds no others takes one.
#[verifier::external_body]
fn terminal_width(text: &str) -> (cells: usize)
    ensures
        cells == cell_width(text@),
        cells <= 3 * text@.len(),
        printable_ascii(text@) ==> cells == text@.len(),
{
    UnicodeWidthStr::width(text)
}

/// `UnicodeSegmentation::graphemes` over extended clusters: which clusters come
/// out is a function of the text; none is empty, and together, in order, they
/// are the text. Two printable ASCII characters side by side are never in one
/// cluster, so such characters at the beginning of a text are clusters of their
/// own up to the one that something else follows.
#[verifier::external_body]
fn segment(text: &str) -> (clusters: Vec<String>)
    ensures
        clusters.deep_view() == grapheme_clusters(text@),
        strs::concat(clusters.deep_view()) == text@,
        forall|i: int| 0 <= i < clusters.len() ==> (#[trigger] clusters@[i])@.len() > 0,
        forall|n: int| #[trigger]
            plain_upto(text@, n) ==> n <= clusters.len() && clusters.deep_view().take(n) == singles(
                text@.take(n),
            ),
{
    UnicodeSegmentation::graphemes(text, true).map(|cluster| cluster.to_owned()).collect()
}

/// One grapheme cluster with the number of terminal cells it takes.
#[derive(Clone, Debug, PartialEq, Eq)]
pub struct Cluster {
    pub text: String,
    pub cells: usize,
}

/// A measured cluster as a mathematical value.
pub struct ClusterView {
    pub text: Seq<char>,
    pub cells: nat,
}

impl DeepView for Cluster {
    type V = ClusterView;

    open spec fn deep_view(&self) -> ClusterView {
        ClusterView { text: self.text@, cells: self.cells as nat }
    }
}

/// The measured clusters of a text.
pub open spec fn measured(text: Seq<char>) -> Seq<ClusterView> {
    grapheme_clusters(text).map_values(
        |cluster: Seq<char>| ClusterView { text: cluster, cells: cell_width(cluster) as nat },
    )
}

/// The text of a run of clusters.
pub open spec fn content(items: Seq<ClusterView>) -> Seq<char>
    decreases items.len(),
{
    if items.len() == 0 {
        Seq::empty()
    } else {
        content(items.drop_last()) + items.last().text
    }
}

/// The cells a run of clusters takes together.
pub open spec fn cells_of(items: Seq<ClusterView>) -> nat
    decreases items.len(),
{
    if items.len() == 0 {
        0
    } else {
        cells_of(items.drop_last()) + items.last().cells
    }
}

/// The number of terminal cells of `text`.
pub fn width(text: &str) -> (cells: usize)
    ensures
        cells == cell_width(text@),
        cells <= 3 * text@.len(),
        printable_ascii(text@) ==> cells == text@.len(),
{
    terminal_width(text)
}

/// Printable ASCII characters as clusters of one cell each.
pub open spec fn plain_clusters(text: Seq<char>) -> Seq<ClusterView> {
    text.map_values(|c: char| ClusterView { text: seq![c], cells: 1 })
}

/// Splits `text` into its grapheme clusters and measures each.
pub fn measure(text: &str) -> (clusters: Vec<Cluster>)
    ensures
        clusters.deep_view() == measured(text@),
        content(clusters.deep_view()) == text@,
        forall|i: int| 0 <= i < clusters.len() ==> (#[trigger] clusters@[i]).text@.len() > 0,
        forall|n: int| #[trigger]
            plain_upto(text@, n) ==> n <= clusters.len() && clusters.deep_view().take(n)
                == plain_clusters(text@.take(n)),
{
    let parts = segment(text);
    let mut clusters: Vec<Cluster> = Vec::new();
    let mut i: usize = 0;
    while i < parts.len()
        invariant
            i <= parts.len(),
            parts.deep_view() == grapheme_clusters(text@),
            clusters.len() == i,
            clusters.deep_view() == measured(text@).take(i as int),
            content(clusters.deep_view()) == strs::concat(parts.deep_view().take(i as int)),
            forall|k: int| 0 <= k < parts.len() ==> (#[trigger] parts@[k])@.len() > 0,
            forall|k: int| 0 <= k < i ==> (#[trigger] clusters@[k]).text@.len() > 0,
            forall|k: int|
                0 <= k < i && printable_ascii((#[trigger] clusters@[k]).text@)
                    ==> clusters@[k].cells == clusters@[k].text@.len(),
        decreases parts.len() - i,
    {
        let ghost earlier = clusters.deep_view();
        let piece = parts[i].clone();
        let cells = width(piece.as_str());
        let cluster = Cluster { text: piece, cells };
        clusters.push(cluster);
        proof {
            let all = parts.deep_view();
            assert(all[i as int] == cluster.text@);
            assert(clusters.deep_view() =~= earlier.push(cluster.deep_view()));
            assert(clusters.deep_view().drop_last() =~= earlier);
            assert(all.take(i as int + 1).drop_last() =~= all.take(i as int));
            assert(measured(text@).take(i as int + 1) =~= earlier.push(cluster.deep_view()));
        }
        i += 1;
    }
    proof {
        assert(parts.deep_view().take(i as int) =~= parts.deep_view());
        assert(measured(text@).take(i as int) =~= measured(text@));
        let items = clusters.deep_view();
        assert forall|n: int| #[trigger] plain_upto(text@, n) implies n <= clusters.len()
            && items.take(n) == plain_clusters(text@.take(n)) by {
            let prefix = text@.take(n);
            assert forall|k: int| 0 <= k < n implies items[k] == plain_clusters(prefix)[k] by {
                assert(parts.deep_view().take(n)[k] == singles(prefix)[k]);
                assert(' ' <= prefix[k] <= '~');
                assert(items[k] == clusters@[k].deep_view());
                assert(items[k].text == grapheme_clusters(text@)[k]);
                assert(clusters@[k].text@ == seq![prefix[k]]);
                assert(printable_ascii(clusters@[k].text@));
            }
            assert(items.take(n) =~= plain_clusters(prefix));
        }
    }
    clusters
}

proof fn plain_clusters_are_their_text(text: Seq<char>)
    ensures
        content(plain_clusters(text)) == text,
        cells_of(plain_clusters(text)) == text.len(),
    decreases text.len(),
{
    if text.len() > 0 {
        plain_clusters_are_their_text(text.drop_last());
        assert(plain_clusters(text).drop_last() =~= plain_clusters(text.drop_last()));
        assert(content(plain_clusters(text)) =~= text);
    } else {
        assert(content(plain_clusters(text)) =~= text);
    }
}

/// Clusters that take no more than the budget together are among those that fit.
pub proof fn fit_takes_in(items: Seq<ClusterView>, n: int, budget: nat)
    requires
        0 <= n <= items.len(),
        cells_of(items.take(n)) <= budget,
    ensures
        n <= fit(items, budget),
{
    fit_is_longest(items, budget);
    let k = fit(items, budget) as int;
    if k < n {
        let more = items.take(k + 1);
        assert(items.take(n) =~= more + items.subrange(k + 1, n));
        cells_add(more, items.subrange(k + 1, n));
    }
}

/// A plain beginning that leaves room for the ellipsis survives truncation.
proof fn plain_beginning_survives(text: Seq<char>, items: Seq<ClusterView>, max: nat, n: int)
    requires
        items == measured(text),
        0 <= n <= items.len(),
        n <= text.len(),
        items.take(n) == plain_clusters(text.take(n)),
        n + 3 <= max,
    ensures
        n <= truncated(text, max).len(),
        truncated(text, max).take(n) == text.take(n),
{
    if cell_width(text) > max {
        let budget = (max - 3) as nat;
        plain_clusters_are_their_text(text.take(n));
        fit_takes_in(items, n, budget);
        fit_is_longest(items, budget);
        let k = fit(items, budget) as int;
        assert(items.take(k) =~= items.take(n) + items.subrange(n, k));
        content_add(items.take(n), items.subrange(n, k));
        assert(truncated(text, max).take(n) =~= text.take(n));
    }
}

pub proof fn content_add(a: Seq<ClusterView>, b: Seq<ClusterView>)
    ensures
        content(a + b) == content(a) + content(b),
    decreases b.len(),
{
    if b.len() == 0 {
        assert(a + b =~= a);
        assert(content(a) + content(b) =~= content(a));
    } else {
        assert((a + b).drop_last() =~= a + b.drop_last());
        content_add(a, b.drop_last());
        assert(content(a + b) =~= content(a) + content(b));
    }
}

pub proof fn cells_add(a: Seq<ClusterView>, b: Seq<ClusterView>)
    ensures
        cells_of(a + b) == cells_of(a) + cells_of(b),
    decreases b.len(),
{
    if b.len() == 0 {
        assert(a + b =~= a);
    } else {
        assert((a + b).drop_last() =~= a + b.drop_last());
        cells_add(a, b.drop_last());
    }
}

/// One cluster alone.
pub proof fn single_cluster(item: ClusterView)
    ensures
        content(seq![item]) == item.text,
        cells_of(seq![item]) == item.cells,
{
    reveal_with_fuel(content, 2);
    reveal_with_fuel(cells_of, 2);
    assert(seq![item].drop_last() =~= Seq::<ClusterView>::empty());
    assert(content(seq![item]) =~= item.text);
}

// ---------------------------------------------------------------------------
// Fitting a prefix or a suffix into a budget
// ---------------------------------------------------------------------------

/// How many leading clusters fit into `budget` cells.
pub open spec fn fit(items: Seq<ClusterView>, budget: nat) -> nat
    decreases items.len(),
{
    if items.len() == 0 || items[0].cells > budget {
        0
    } else {
        1 + fit(items.skip(1), (budget - items[0].cells) as nat)
    }
}

/// How many trailing clusters fit into `budget` cells.
pub open spec fn fit_back(items: Seq<ClusterView>, budget: nat) -> nat
    decreases items.len(),
{
    if items.len() == 0 || items.last().cells > budget {
        0
    } else {
        1 + fit_back(items.drop_last(), (budget - items.last().cells) as nat)
    }
}

/// The text of the longest prefix that fits into `budget` cells.
pub open spec fn head_text(items: Seq<ClusterView>, budget: nat) -> Seq<char> {
    content(items.take(fit(items, budget) as int))
}

/// The text of the longest suffix that fits into `budget` cells.
pub open spec fn tail_text(items: Seq<ClusterView>, budget: nat) -> Seq<char> {
    content(items.skip(items.len() - fit_back(items, budget)))
}

/// The prefix that [`fit`] counts takes no more than the budget, and one more
/// cluster would exceed it.
pub proof fn fit_is_longest(items: Seq<ClusterView>, budget: nat)
    ensures
        fit(items, budget) <= items.len(),
        cells_of(items.take(fit(items, budget) as int)) <= budget,
        fit(items, budget) < items.len() ==> cells_of(items.take(fit(items, budget) as int + 1)) > budget,
    decreases items.len(),
{
    if items.len() == 0 {
        assert(items.take(0) =~= Seq::<ClusterView>::empty());
    } else if items[0].cells > budget {
        assert(items.take(0) =~= Seq::<ClusterView>::empty());
        single_cluster(items[0]);
        assert(items.take(1) =~= seq![items[0]]);
    } else {
        let rest = items.skip(1);
        let left = (budget - items[0].cells) as nat;
        let n = fit(rest, left);
        fit_is_longest(rest, left);
        let first = items.take(1);
        single_cluster(items[0]);
        assert(first =~= seq![items[0]]);
        assert(items.take(n as int + 1) =~= first + rest.take(n as int));
        cells_add(first, rest.take(n as int));
        if n < rest.len() {
            assert(items.take(n as int + 2) =~= first + rest.take(n as int + 1));
            cells_add(first, rest.take(n as int + 1));
        }
    }
}

/// The suffix that [`fit_back`] counts takes no more than the budget, and one
/// more cluster would exceed it.
pub proof fn fit_back_is_longest(items: Seq<ClusterView>, budget: nat)
    ensures
        fit_back(items, budget) <= items.len(),
        cells_of(items.skip(items.len() - fit_back(items, budget))) <= budget,
        fit_back(items, budget) < items.len() ==> cells_of(
            items.skip(items.len() - fit_back(items, budget) - 1),
        ) > budget,
    decreases items.len(),
{
    let len = items.len() as int;
    if items.len() == 0 {
        assert(items.skip(0) =~= Seq::<ClusterView>::empty());
    } else if items.last().cells > budget {
        assert(items.skip(len) =~= Seq::<ClusterView>::empty());
        assert(items.skip(len - 1).drop_last() =~= Seq::<ClusterView>::empty());
    } else {
        let rest = items.drop_last();
        let left = (budget - items.last().cells) as nat;
        let n = fit_back(rest, left);
        fit_back_is_longest(rest, left);
        assert(items.skip(len - n - 1).drop_last() =~= rest.skip(rest.len() - n));
        if n < rest.len() {
            assert(items.skip(len - n - 2).drop_last() =~= rest.skip(rest.len() - n - 1));
        }
    }
}

/// Appends the text of the clusters `from..to`.
pub fn push_clusters(text: &mut String, clusters: &Vec<Cluster>, from: usize, to: usize)
    requires
        from <= to <= clusters.len(),
    ensures
        final(text)@ == old(text)@ + content(
            clusters.deep_view().subrange(from as int, to as int),
        ),
{
    let ghost items = clusters.deep_view();
    let mut i: usize = from;
    proof {
        assert(items.subrange(from as int, from as int) =~= Seq::<ClusterView>::empty());
        assert(text@ =~= old(text)@ + content(items.subrange(from as int, from as int)));
    }
    while i < to
        invariant
            from <= i <= to <= clusters.len(),
            items == clusters.deep_view(),
            text@ == old(text)@ + content(items.subrange(from as int, i as int)),
        decreases to - i,
    {
        text.push_str(clusters[i].text.as_str());
        proof {
            let grown = items.subrange(from as int, i as int + 1);
            assert(grown.drop_last() =~= items.subrange(from as int, i as int));
            assert(grown.last() == items[i as int]);
            assert(text@ =~= old(text)@ + content(grown));
        }
        i += 1;
    }
}

/// How many leading clusters fit into `budget` cells.
pub fn fitting(clusters: &Vec<Cluster>, budget: usize) -> (count: usize)
    ensures
        count == fit(clusters.deep_view(), budget as nat),
        count <= clusters.len(),
{
    let ghost items = clusters.deep_view();
    let mut left: usize = budget;
    let mut i: usize = 0;
    proof {
        assert(items.skip(0) =~= items);
    }
    while i < clusters.len() && clusters[i].cells <= left
        invariant
            i <= clusters.len(),
            items == clusters.deep_view(),
            fit(items, budget as nat) == i + fit(items.skip(i as int), left as nat),
        decreases clusters.len() - i,
    {
        proof {
            assert(items.skip(i as int)[0] == items[i as int]);
            assert(items.skip(i as int).skip(1) =~= items.skip(i as int + 1));
        }
        left -= clusters[i].cells;
        i += 1;
    }
    proof {
        if i < clusters.len() {
            assert(items.skip(i as int)[0] == items[i as int]);
        }
    }
    i
}

/// How many trailing clusters fit into `budget` cells.
pub fn fitting_back(clusters: &Vec<Cluster>, budget: usize) -> (count: usize)
    ensures
        count == fit_back(clusters.deep_view(), budget as nat),
        count <= clusters.len(),
{
    let ghost items = clusters.deep_view();
    let mut left: usize = budget;
    let mut i: usize = clusters.len();
    proof {
        assert(items.take(i as int) =~= items);
    }
    while 0 < i && clusters[i - 1].cells <= left
        invariant
            i <= clusters.len(),
            items == clusters.deep_view(),
            fit_back(items, budget as nat) == (clusters.len() - i) + fit_back(
                items.take(i as int),
                left as nat,
            ),
        decreases i,
    {
        proof {
            assert(items.take(i as int).last() == items[i - 1]);
            assert(items.take(i as int).drop_last() =~= items.take(i - 1));
        }
        left -= clusters[i - 1].cells;
        i -= 1;
    }
    proof {
        if 0 < i {
            assert(items.take(i as int).last() == items[i - 1]);
        }
    }
    clusters.len() - i
}

/// The longest prefix within `budget` cells, as text.
pub fn head_within(clusters: &Vec<Cluster>, budget: usize) -> (text: String)
    ensures
        text@ == head_text(clusters.deep_view(), budget as nat),
{
    let mut text = String::new();
    let count = fitting(clusters, budget);
    push_clusters(&mut text, clusters, 0, count);
    proof {
        let items = clusters.deep_view();
        assert(items.subrange(0, count as int) =~= items.take(count as int));
        assert(text@ =~= content(items.take(count as int)));
    }
    text
}

/// The longest suffix within `budget` cells, as text.
pub fn tail_within(clusters: &Vec<Cluster>, budget: usize) -> (text: String)
    ensures
        text@ == tail_text(clusters.deep_view(), budget as nat),
{
    let mut text = String::new();
    let count = fitting_back(clusters, budget);
    push_clusters(&mut text, clusters, clusters.len() - count, clusters.len());
    proof {
        let items = clusters.deep_view();
        assert(items.subrange(items.len() - count, items.len() as int) =~= items.skip(
            items.len() - count,
        ));
        assert(text@ =~= content(items.skip(items.len() - count)));
    }
    text
}

// ---------------------------------------------------------------------------
// Truncation
// ---------------------------------------------------------------------------

/// What is left of a text too wide for `max` cells, its clusters given: the
/// longest prefix in front of an ellipsis of three dots, where those fit.
pub open spec fn truncated_clusters(items: Seq<ClusterView>, max: nat) -> Seq<char> {
    if max == 0 {
        Seq::empty()
    } else if max >= 3 {
        head_text(items, (max - 3) as nat) + "..."@
    } else {
        head_text(items, max)
    }
}

/// The text itself where it fits, its truncated form otherwise.
pub open spec fn truncated(text: Seq<char>, max: nat) -> Seq<char> {
    if cell_width(text) <= max {
        text
    } else {
        truncated_clusters(measured(text), max)
    }
}

/// [`truncated_clusters`], mirrored: the end of the text is kept.
pub open spec fn tailed_clusters(items: Seq<ClusterView>, max: nat) -> Seq<char> {
    if max == 0 {
        Seq::empty()
    } else if max >= 3 {
        "..."@ + tail_text(items, (max - 3) as nat)
    } else {
        tail_text(items, max)
    }
}

/// The text itself where it fits, its end behind an ellipsis otherwise.
pub open spec fn tailed(text: Seq<char>, max: nat) -> Seq<char> {
    if cell_width(text) <= max {
        text
    } else {
        tailed_clusters(measured(text), max)
    }
}

pub fn truncate_clusters(clusters: &Vec<Cluster>, max_width: usize) -> (text: String)
    ensures
        text@ == truncated_clusters(clusters.deep_view(), max_width as nat),
{
    if max_width == 0 {
        String::new()
    } else if max_width >= 3 {
        let mut text = head_within(clusters, max_width - 3);
        text.push_str("...");
        text
    } else {
        head_within(clusters, max_width)
    }
}

pub fn tail_clusters(clusters: &Vec<Cluster>, max_width: usize) -> (text: String)
    ensures
        text@ == tailed_clusters(clusters.deep_view(), max_width as nat),
{
    if max_width == 0 {
        String::new()
    } else if max_width >= 3 {
        let kept = tail_within(clusters, max_width - 3);
        strs::cat("...", kept.as_str())
    } else {
        tail_within(clusters, max_width)
    }
}

/// Cuts `text` to `max_width` cells, keeping its beginning.
pub fn truncate(text: &str, max_width: usize) -> (result: String)
    ensures
        result@ == truncated(text@, max_width as nat),
        printable_ascii(text@) && text@.len() <= max_width ==> result@ == text@,
        forall|n: int| #[trigger]
            plain_upto(text@, n) && n + 3 <= max_width ==> n <= result@.len() && result@.take(n)
                == text@.take(n),
{
    if width(text) <= max_width {
        return text.to_owned();
    }
    let clusters = measure(text);
    proof {
        let items = clusters.deep_view();
        assert forall|n: int| #[trigger]
            plain_upto(text@, n) && n + 3 <= max_width implies n <= truncated(
            text@,
            max_width as nat,
        ).len() && truncated(text@, max_width as nat).take(n) == text@.take(n) by {
            assert(items.len() == clusters.len());
            plain_beginning_survives(text@, items, max_width as nat, n);
        }
    }
    truncate_clusters(&clusters, max_width)
}

/// Cuts `text` to `max_width` cells, keeping its end.
pub fn tail(text: &str, max_width: usize) -> (result: String)
    ensures
        result@ == tailed(text@, max_width as nat),
{
    if width(text) <= max_width {
        return text.to_owned();
    }
    tail_clusters(&measure(text), max_width)
}

/// Truncation stays within the budget: the clusters that are kept, with the
/// ellipsis, take at most `max` cells.
pub proof fn truncation_fits(items: Seq<ClusterView>, max: nat)
    ensures
        exists|kept: nat|
            #![trigger items.take(kept as int)]
            {
                let mark = if max >= 3 { "..."@ } else { Seq::empty() };
                &&& kept <= items.len()
                &&& cells_of(items.take(kept as int)) + mark.len() <= max
                &&& truncated_clusters(items, max) == content(items.take(kept as int)) + mark
            },
{
    reveal_strlit("...");
    let mark = if max >= 3 { "..."@ } else { Seq::<char>::empty() };
    let kept = if max == 0 {
        0
    } else if max >= 3 {
        fit(items, (max - 3) as nat)
    } else {
        fit(items, max)
    };
    if max >= 3 {
        fit_is_longest(items, (max - 3) as nat);
    } else {
        fit_is_longest(items, max);
    }
    assert(items.take(0) =~= Seq::<ClusterView>::empty());
    assert(truncated_clusters(items, max) =~= content(items.take(kept as int)) + mark);
}

/// The beginning of a text within `budget` cells, then the ellipsis mark.
pub open spec fn ellipsized_clusters(items: Seq<ClusterView>, budget: nat) -> Seq<char> {
    head_text(items, budget) + "…"@
}

/// The cells a text may keep beside the ellipsis mark.
pub open spec fn beside_mark(max: nat) -> nat {
    if max > cell_width("…"@) {
        (max - cell_width("…"@)) as nat
    } else {
        0
    }
}

/// The text itself where it fits, its beginning and a mark otherwise.
pub open spec fn ellipsized(text: Seq<char>, max: nat) -> Seq<char> {
    if cell_width(text) <= max {
        text
    } else if max == 0 {
        Seq::empty()
    } else {
        ellipsized_clusters(measured(text), beside_mark(max))
    }
}

/// Both ends of a text within `budget` cells together, a mark between them; an
/// odd cell goes to the beginning.
pub open spec fn middled_clusters(items: Seq<ClusterView>, budget: nat) -> Seq<char> {
    head_text(items, (budget - budget / 2) as nat) + "…"@ + tail_text(items, budget / 2)
}

/// The text itself where it fits, its two ends around a mark otherwise.
pub open spec fn middled(text: Seq<char>, max: nat) -> Seq<char> {
    if cell_width(text) <= max {
        text
    } else if max == 0 {
        Seq::empty()
    } else {
        middled_clusters(measured(text), beside_mark(max))
    }
}

/// [`ellipsize`] of a text too wide, its clusters given.
pub fn ellipsize_clusters(clusters: &Vec<Cluster>, budget: usize) -> (text: String)
    ensures
        text@ == ellipsized_clusters(clusters.deep_view(), budget as nat),
{
    let mut text = head_within(clusters, budget);
    text.push_str("…");
    text
}

/// [`truncate_mid`] of a text too wide, its clusters given.
pub fn truncate_mid_clusters(clusters: &Vec<Cluster>, budget: usize) -> (text: String)
    ensures
        text@ == middled_clusters(clusters.deep_view(), budget as nat),
{
    let tail = tail_within(clusters, budget / 2);
    let mut text = head_within(clusters, budget - budget / 2);
    text.push_str("…");
    text.push_str(tail.as_str());
    text
}

/// Head-keeping truncation with a one-character mark.
pub fn ellipsize(text: &str, max_width: usize) -> (result: String)
    ensures
        result@ == ellipsized(text@, max_width as nat),
{
    if width(text) <= max_width {
        return text.to_owned();
    }
    if max_width == 0 {
        return String::new();
    }
    ellipsize_clusters(&measure(text), max_width.saturating_sub(width("…")))
}

/// Truncation that keeps both ends of the text.
pub fn truncate_mid(text: &str, max_width: usize) -> (result: String)
    ensures
        result@ == middled(text@, max_width as nat),
{
    if width(text) <= max_width {
        return text.to_owned();
    }
    if max_width == 0 {
        return String::new();
    }
    truncate_mid_clusters(&measure(text), max_width.saturating_sub(width("…")))
}

// ---------------------------------------------------------------------------
// Wrapping
// ---------------------------------------------------------------------------

/// Greedy soft wrap of one logical line: a cluster that would push a row with
/// visible content past `max` cells begins the next row.
pub open spec fn wrap_rows(items: Seq<ClusterView>, max: nat) -> Seq<Seq<ClusterView>>
    decreases items.len(),
{
    if items.len() == 0 {
        seq![Seq::empty()]
    } else {
        let before = wrap_rows(items.drop_last(), max);
        let row = before.last();
        let next = items.last();
        if cells_of(row) > 0 && cells_of(row) + next.cells > max {
            before.push(seq![next])
        } else {
            before.drop_last().push(row.push(next))
        }
    }
}

/// The text of each row.
pub open spec fn row_texts(rows: Seq<Seq<ClusterView>>) -> Seq<Seq<char>> {
    rows.map_values(|row: Seq<ClusterView>| content(row))
}

/// The wrapped rows of several logical lines, one after the other.
pub open spec fn wrap_lines(lines: Seq<Seq<char>>, max: nat) -> Seq<Seq<char>>
    decreases lines.len(),
{
    if lines.len() == 0 {
        Seq::empty()
    } else {
        wrap_lines(lines.drop_last(), max) + row_texts(wrap_rows(measured(lines.last()), max))
    }
}

/// The soft-wrapped rows of a text; none at all in zero cells.
pub open spec fn wrapped(text: Seq<char>, max: nat) -> Seq<Seq<char>> {
    if max == 0 {
        Seq::empty()
    } else {
        wrap_lines(split_on(text, '\n'), max)
    }
}

/// All the rows' clusters, in order.
pub open spec fn row_items(rows: Seq<Seq<ClusterView>>) -> Seq<ClusterView>
    decreases rows.len(),
{
    if rows.len() == 0 {
        Seq::empty()
    } else {
        row_items(rows.drop_last()) + rows.last()
    }
}

/// Wrapping loses nothing, reorders nothing and splits no cluster: the rows
/// hold exactly the line's clusters, in order.
pub proof fn wrap_rows_keep_every_cluster(items: Seq<ClusterView>, max: nat)
    ensures
        row_items(wrap_rows(items, max)) == items,
        wrap_rows(items, max).len() >= 1,
    decreases items.len(),
{
    let rows = wrap_rows(items, max);
    if items.len() == 0 {
        reveal_with_fuel(row_items, 2);
        assert(rows.drop_last() =~= Seq::<Seq<ClusterView>>::empty());
        assert(row_items(rows) =~= items);
    } else {
        let before = wrap_rows(items.drop_last(), max);
        wrap_rows_keep_every_cluster(items.drop_last(), max);
        let next = items.last();
        if rows.len() == before.len() + 1 {
            assert(rows.drop_last() =~= before);
        } else {
            assert(rows.drop_last() =~= before.drop_last());
        }
        assert(row_items(rows) =~= items.drop_last().push(next));
        assert(items.drop_last().push(next) =~= items);
    }
}

/// Texts joined in two runs are the texts joined in one.
proof fn concat_add(a: Seq<Seq<char>>, b: Seq<Seq<char>>)
    ensures
        strs::concat(a + b) == strs::concat(a) + strs::concat(b),
    decreases b.len(),
{
    if b.len() == 0 {
        assert(a + b =~= a);
        assert(strs::concat(a) + strs::concat(b) =~= strs::concat(a));
    } else {
        concat_add(a, b.drop_last());
        assert((a + b).drop_last() =~= a + b.drop_last());
        assert((strs::concat(a) + strs::concat(b.drop_last())) + b.last() =~= strs::concat(a)
            + strs::concat(b));
    }
}

/// The rows' texts make up the text of their clusters.
proof fn row_texts_join(rows: Seq<Seq<ClusterView>>)
    ensures
        strs::concat(row_texts(rows)) == content(row_items(rows)),
    decreases rows.len(),
{
    if rows.len() > 0 {
        row_texts_join(rows.drop_last());
        content_add(row_items(rows.drop_last()), rows.last());
        assert(row_texts(rows).drop_last() =~= row_texts(rows.drop_last()));
    }
}

/// No row is wider than `max`, unless a single cluster wider than the whole row
/// stands in it behind nothing visible.
pub proof fn wrap_rows_fit(items: Seq<ClusterView>, max: nat)
    ensures
        forall|i: int|
            0 <= i < wrap_rows(items, max).len() ==> {
                let row = #[trigger] wrap_rows(items, max)[i];
                cells_of(row) <= max || (row.len() > 0 && cells_of(row.drop_last()) == 0)
            },
    decreases items.len(),
{
    if items.len() > 0 {
        let before = wrap_rows(items.drop_last(), max);
        wrap_rows_fit(items.drop_last(), max);
        wrap_rows_keep_every_cluster(items.drop_last(), max);
        let rows = wrap_rows(items, max);
        let next = items.last();
        let row = before.last();
        assert forall|i: int| 0 <= i < rows.len() implies {
            let r = #[trigger] rows[i];
            cells_of(r) <= max || (r.len() > 0 && cells_of(r.drop_last()) == 0)
        } by {
            if i < rows.len() - 1 {
                assert(rows[i] == before[i]);
            } else if cells_of(row) > 0 && cells_of(row) + next.cells > max {
                assert(rows[i] == seq![next]);
                assert(rows[i].drop_last() =~= Seq::<ClusterView>::empty());
            } else {
                assert(rows[i] == row.push(next));
                assert(rows[i].drop_last() =~= row);
            }
        }
    } else {
        assert(cells_of(wrap_rows(items, max)[0]) == 0);
    }
}

/// Soft-wraps one logical line, its clusters given.
pub fn wrap_clusters(clusters: &Vec<Cluster>, max_width: usize) -> (rows: Vec<String>)
    ensures
        rows.deep_view() == row_texts(wrap_rows(clusters.deep_view(), max_width as nat)),
{
    let ghost items = clusters.deep_view();
    let ghost max = max_width as nat;
    let mut rows: Vec<String> = Vec::new();
    let mut current = String::new();
    let mut current_width: usize = 0;
    let ghost mut done: Seq<Seq<ClusterView>> = Seq::empty();
    let ghost mut row: Seq<ClusterView> = Seq::empty();
    let mut i: usize = 0;
    proof {
        assert(items.take(0) =~= Seq::<ClusterView>::empty());
        assert(done.push(row) =~= wrap_rows(items.take(0), max));
        assert(rows.deep_view() =~= row_texts(done));
    }
    while i < clusters.len()
        invariant
            i <= clusters.len(),
            items == clusters.deep_view(),
            max == max_width,
            wrap_rows(items.take(i as int), max) == done.push(row),
            rows.deep_view() == row_texts(done),
            current@ == content(row),
            current_width == cells_of(row),
        decreases clusters.len() - i,
    {
        let cells = clusters[i].cells;
        let ghost next = items[i as int];
        let ghost before = done.push(row);
        proof {
            assert(items.take(i as int + 1).drop_last() =~= items.take(i as int));
            assert(items.take(i as int + 1).last() == next);
            assert(before.last() == row);
            assert(before.drop_last() =~= done);
        }
        if current_width > 0 && (current_width > max_width || cells > max_width - current_width) {
            let ghost earlier = rows.deep_view();
            let ghost text = current@;
            rows.push(current);
            current = clusters[i].text.clone();
            current_width = cells;
            proof {
                assert(rows.deep_view() =~= earlier.push(text));
                assert(row_texts(done.push(row)) =~= row_texts(done).push(content(row)));
                done = done.push(row);
                row = seq![next];
                single_cluster(next);
            }
        } else {
            current.push_str(clusters[i].text.as_str());
            proof {
                assert(row.push(next).drop_last() =~= row);
                row = row.push(next);
            }
            current_width = current_width + cells;
        }
        i += 1;
    }
    let ghost earlier = rows.deep_view();
    let ghost text = current@;
    rows.push(current);
    proof {
        assert(items.take(i as int) =~= items);
        assert(rows.deep_view() =~= earlier.push(text));
        assert(row_texts(done.push(row)) =~= row_texts(done).push(content(row)));
    }
    rows
}

/// Soft-wraps `text` on terminal cells without splitting graphemes. Read row
/// after row, nothing but the line breaks is gone.
pub fn wrap(text: &str, max_width: usize) -> (rows: Vec<String>)
    ensures
        rows.deep_view() == wrapped(text@, max_width as nat),
        max_width > 0 ==> strs::concat(rows.deep_view()) == strs::concat(split_on(text@, '\n')),
{
    let mut rows: Vec<String> = Vec::new();
    if max_width == 0 {
        proof {
            assert(rows.deep_view() =~= Seq::<Seq<char>>::empty());
        }
        return rows;
    }
    let lines = strs::split(text, '\n');
    let ghost all = lines.deep_view();
    let mut i: usize = 0;
    proof {
        assert(rows.deep_view() =~= wrap_lines(all.take(0), max_width as nat));
        assert(all.take(0) =~= Seq::<Seq<char>>::empty());
    }
    while i < lines.len()
        invariant
            i <= lines.len(),
            all == lines.deep_view(),
            rows.deep_view() == wrap_lines(all.take(i as int), max_width as nat),
            strs::concat(rows.deep_view()) == strs::concat(all.take(i as int)),
        decreases lines.len() - i,
    {
        let ghost earlier = rows.deep_view();
        let clusters = measure(lines[i].as_str());
        let mut more = wrap_clusters(&clusters, max_width);
        let ghost added = more.deep_view();
        rows.append(&mut more);
        proof {
            let wrapped_rows = wrap_rows(clusters.deep_view(), max_width as nat);
            wrap_rows_keep_every_cluster(clusters.deep_view(), max_width as nat);
            row_texts_join(wrapped_rows);
            concat_add(earlier, added);
            assert(rows.deep_view() =~= earlier + added);
            assert(all.take(i as int + 1).drop_last() =~= all.take(i as int));
            assert(all.take(i as int + 1).last() == lines@[i as int]@);
        }
        i += 1;
    }
    proof {
        assert(all.take(i as int) =~= all);
    }
    rows
}

/// The rows of `text` behind a gutter: `first` on the first row, `rest` on the
/// others.
pub open spec fn wrapped_behind(
    text: Seq<char>,
    max: nat,
    first: Seq<char>,
    rest: Seq<char>,
) -> Seq<Seq<char>> {
    if max == 0 {
        Seq::empty()
    } else if text.len() == 0 {
        seq![first]
    } else {
        let left = if max > cell_width(first) {
            (max - cell_width(first)) as nat
        } else {
            1
        };
        let rows = wrapped(text, left);
        Seq::new(
            rows.len(),
            |i: int|
                if i == 0 {
                    first + rows[i]
                } else {
                    rest + rows[i]
                },
        )
    }
}

fn wrap_prefixed(text: &str, max_width: usize, first_gutter: &str, rest_gutter: &str) -> (rows: Vec<
    String,
>)
    ensures
        rows.deep_view() == wrapped_behind(
            text@,
            max_width as nat,
            first_gutter@,
            rest_gutter@,
        ),
{
    let mut result: Vec<String> = Vec::new();
    if max_width == 0 {
        proof {
            assert(result.deep_view() =~= Seq::<Seq<char>>::empty());
        }
        return result;
    }
    if text.is_empty() {
        result.push(first_gutter.to_owned());
        proof {
            assert(result.deep_view() =~= seq![first_gutter@]);
        }
        return result;
    }
    let gutter_width = width(first_gutter);
    let content_width: usize = if max_width > gutter_width {
        max_width - gutter_width
    } else {
        1
    };
    let rows = wrap(text, content_width);
    let ghost expected = wrapped_behind(text@, max_width as nat, first_gutter@, rest_gutter@);
    let mut i: usize = 0;
    while i < rows.len()
        invariant
            i <= rows.len(),
            result.len() == i,
            expected.len() == rows.len(),
            rows.deep_view() == wrapped(text@, content_width as nat),
            forall|k: int|
                0 <= k < expected.len() ==> #[trigger] expected[k] == (if k == 0 {
                    first_gutter@
                } else {
                    rest_gutter@
                }) + rows.deep_view()[k],
            forall|k: int| 0 <= k < i ==> (#[trigger] result@[k])@ == expected[k],
        decreases rows.len() - i,
    {
        let row = if i == 0 {
            strs::cat(first_gutter, rows[i].as_str())
        } else {
            strs::cat(rest_gutter, rows[i].as_str())
        };
        result.push(row);
        i += 1;
    }
    proof {
        assert(result.deep_view() =~= expected);
    }
    result
}

/// The rows of a tool line, hanging behind the marker it begins with.
pub open spec fn wrapped_hanging(text: Seq<char>, max: nat) -> Seq<Seq<char>> {
    if begins(text, "  └ "@) {
        wrapped_behind(text.skip(4), max, "  └ "@, "    "@)
    } else if begins(text, "    "@) {
        wrapped_behind(text.skip(4), max, "    "@, "    "@)
    } else if begins(text, "  "@) {
        wrapped_behind(text.skip(2), max, "  "@, "  "@)
    } else if begins(text, "• "@) {
        wrapped_behind(text.skip(2), max, "• "@, "  "@)
    } else if begins(text, "+ "@) {
        wrapped_behind(text.skip(2), max, "+ "@, "+ "@)
    } else if begins(text, "+"@) {
        wrapped_behind(text.skip(1), max, "+ "@, "+ "@)
    } else if begins(text, "- "@) {
        wrapped_behind(text.skip(2), max, "- "@, "- "@)
    } else if begins(text, "-"@) {
        wrapped_behind(text.skip(1), max, "- "@, "- "@)
    } else {
        wrapped(text, max)
    }
}

/// Soft-wraps a hanging-indented tool line.
pub fn wrap_hanging(text: &str, max_width: usize) -> (rows: Vec<String>)
    ensures
        rows.deep_view() == wrapped_hanging(text@, max_width as nat),
{
    proof {
        reveal_strlit("  └ ");
        reveal_strlit("    ");
        reveal_strlit("  ");
        reveal_strlit("• ");
        reveal_strlit("+ ");
        reveal_strlit("+");
        reveal_strlit("- ");
        reveal_strlit("-");
    }
    if let Some(rest) = strs::strip_prefix(text, "  └ ") {
        wrap_prefixed(rest.as_str(), max_width, "  └ ", "    ")
    } else if let Some(rest) = strs::strip_prefix(text, "    ") {
        wrap_prefixed(rest.as_str(), max_width, "    ", "    ")
    } else if let Some(rest) = strs::strip_prefix(text, "  ") {
        wrap_prefixed(rest.as_str(), max_width, "  ", "  ")
    } else if let Some(rest) = strs::strip_prefix(text, "• ") {
        wrap_prefixed(rest.as_str(), max_width, "• ", "  ")
    } else if let Some(rest) = strs::strip_prefix(text, "+ ") {
        wrap_prefixed(rest.as_str(), max_width, "+ ", "+ ")
    } else if let Some(rest) = strs::strip_prefix(text, "+") {
        wrap_prefixed(rest.as_str(), max_width, "+ ", "+ ")
    } else if let Some(rest) = strs::strip_prefix(text, "- ") {
        wrap_prefixed(rest.as_str(), max_width, "- ", "- ")
    } else if let Some(rest) = strs::strip_prefix(text, "-") {
        wrap_prefixed(rest.as_str(), max_width, "- ", "- ")
    } else {
        wrap(text, max_width)
    }
}

/// The rows of a reasoning cell: its `think` header plain, its body behind a
/// bar in place of the stored indent.
pub open spec fn wrapped_reasoning(text: Seq<char>, max: nat) -> Seq<Seq<char>> {
    if text == "think"@ {
        wrapped(text, max)
    } else if begins(text, "  "@) {
        wrapped_behind(text.skip(2), max, "│ "@, "│ "@)
    } else {
        wrapped_behind(text, max, "│ "@, "│ "@)
    }
}

/// Soft-wraps a reasoning cell.
pub fn wrap_reasoning(text: &str, max_width: usize) -> (rows: Vec<String>)
    ensures
        rows.deep_view() == wrapped_reasoning(text@, max_width as nat),
{
    proof {
        reveal_strlit("  ");
    }
    if strs::same(text, "think") {
        wrap(text, max_width)
    } else if let Some(rest) = strs::strip_prefix(text, "  ") {
        wrap_prefixed(rest.as_str(), max_width, "│ ", "│ ")
    } else {
        wrap_prefixed(text, max_width, "│ ", "│ ")
    }
}

/// The last `count` wrapped rows of a text.
pub open spec fn last_rows(text: Seq<char>, max: nat, count: nat) -> Seq<Seq<char>> {
    let rows = wrapped(text, max);
    if rows.len() <= count {
        rows
    } else {
        rows.skip(rows.len() - count)
    }
}

/// Wraps a text and keeps its last `count` rows.
pub fn tail_rows(text: &str, max_width: usize, count: usize) -> (rows: Vec<String>)
    ensures
        rows.deep_view() == last_rows(text@, max_width as nat, count as nat),
{
    let mut rows = wrap(text, max_width);
    let ghost all = rows.deep_view();
    if rows.len() > count {
        let cut: usize = rows.len() - count;
        let kept = rows.split_off(cut);
        proof {
            assert(kept.deep_view() =~= all.skip(all.len() - count));
        }
        return kept;
    }
    rows
}

// ---------------------------------------------------------------------------
// Columns
// ---------------------------------------------------------------------------

/// The clusters that begin in one of the columns `start..end`.
pub open spec fn sliced(items: Seq<ClusterView>, start: nat, end: nat) -> Seq<char>
    decreases items.len(),
{
    if items.len() == 0 {
        Seq::empty()
    } else {
        let before = sliced(items.drop_last(), start, end);
        if start <= cells_of(items.drop_last()) < end {
            before + items.last().text
        } else {
            before
        }
    }
}

/// The columns `start..end` of a text; nothing where the range is empty.
pub open spec fn columns(text: Seq<char>, start: nat, end: nat) -> Seq<char> {
    sliced(measured(text), start, end)
}

/// [`slice_columns`] of a text whose clusters are given.
pub fn slice_clusters(clusters: &Vec<Cluster>, start: usize, end: usize) -> (text: String)
    ensures
        text@ == sliced(clusters.deep_view(), start as nat, end as nat),
{
    let ghost items = clusters.deep_view();
    let mut text = String::new();
    let mut col: usize = 0;
    let mut i: usize = 0;
    while i < clusters.len()
        invariant
            i <= clusters.len(),
            items == clusters.deep_view(),
            col == cells_of(items.take(i as int)) || (col == usize::MAX && cells_of(
                items.take(i as int),
            ) > usize::MAX),
            text@ == sliced(items.take(i as int), start as nat, end as nat),
        decreases clusters.len() - i,
    {
        proof {
            assert(items.take(i as int + 1).drop_last() =~= items.take(i as int));
            assert(items.take(i as int + 1).last() == items[i as int]);
        }
        if start <= col && col < end {
            text.push_str(clusters[i].text.as_str());
        }
        col = col.saturating_add(clusters[i].cells);
        i += 1;
    }
    proof {
        assert(items.take(i as int) =~= items);
    }
    text
}

/// Inclusive-start, exclusive-end slice of `text` in terminal columns. Never
/// splits a grapheme; one that straddles a bound is kept if it starts inside
/// the range.
pub fn slice_columns(text: &str, start: usize, end: usize) -> (result: String)
    ensures
        result@ == columns(text@, start as nat, end as nat),
{
    slice_clusters(&measure(text), start, end)
}

/// The text cut to `target` cells and filled up with spaces.
pub open spec fn padded(text: Seq<char>, target: nat) -> Seq<char> {
    let kept = truncated(text, target);
    if cell_width(kept) < target {
        kept + repeated(' ', (target - cell_width(kept)) as nat)
    } else {
        kept
    }
}

/// Cuts or fills `text` to `target_width` cells.
pub fn pad(text: &str, target_width: usize) -> (result: String)
    ensures
        result@ == padded(text@, target_width as nat),
{
    let mut result = truncate(text, target_width);
    let used = width(result.as_str());
    if used < target_width {
        strs::push_repeated(&mut result, ' ', target_width - used);
    }
    result
}

// ---------------------------------------------------------------------------
// Room
// ---------------------------------------------------------------------------

/// Whether a piece of text takes the cells it is measured with: its display
/// width, or its length where it is printable ASCII.
pub open spec fn weighed(item: ClusterView) -> bool {
    item.cells == cell_width(item.text) || (printable_ascii(item.text) && item.cells
        == item.text.len())
}

/// Whether pieces are a text and take at most `max` cells together.
pub open spec fn pieces_within(items: Seq<ClusterView>, text: Seq<char>, max: nat) -> bool {
    &&& content(items) == text
    &&& cells_of(items) <= max
    &&& forall|i: int| 0 <= i < items.len() ==> weighed(#[trigger] items[i])
}

/// Whether a text can be cut into pieces that take at most `max` cells together.
pub open spec fn takes_at_most(text: Seq<char>, max: nat) -> bool {
    exists|items: Seq<ClusterView>| pieces_within(items, text, max)
}

/// Printable ASCII takes a cell per character.
pub proof fn ascii_takes_its_length(text: Seq<char>)
    requires
        printable_ascii(text),
    ensures
        forall|max: nat| text.len() <= max ==> #[trigger] takes_at_most(text, max),
{
    let item = ClusterView { text, cells: text.len() };
    single_cluster(item);
    assert forall|max: nat| text.len() <= max implies #[trigger] takes_at_most(text, max) by {
        assert(pieces_within(seq![item], text, max));
    }
}

/// Two texts take no more than their cells together.
pub proof fn room_adds_up(a: Seq<char>, left: nat, b: Seq<char>, right: nat)
    requires
        takes_at_most(a, left),
        takes_at_most(b, right),
    ensures
        takes_at_most(a + b, left + right),
{
    let first = choose|items: Seq<ClusterView>| pieces_within(items, a, left);
    let second = choose|items: Seq<ClusterView>| pieces_within(items, b, right);
    content_add(first, second);
    cells_add(first, second);
    assert(pieces_within(first + second, a + b, left + right));
}

/// A truncated text takes no more cells than it was truncated to.
pub proof fn truncation_takes_no_more(text: Seq<char>, max: nat)
    ensures
        takes_at_most(truncated(text, max), max),
{
    let items = measured(text);
    if cell_width(text) <= max {
        let whole = ClusterView { text, cells: cell_width(text) as nat };
        single_cluster(whole);
        assert(pieces_within(seq![whole], text, max));
    } else {
        let budget = if max >= 3 {
            (max - 3) as nat
        } else {
            max
        };
        fit_is_longest(items, budget);
        let kept = items.take(fit(items, budget) as int);
        assert forall|i: int| 0 <= i < kept.len() implies weighed(#[trigger] kept[i]) by {
            assert(kept[i] == items[i]);
        }
        if max >= 3 {
            reveal_strlit("...");
            let dots = ClusterView { text: "..."@, cells: 3 };
            single_cluster(dots);
            content_add(kept, seq![dots]);
            cells_add(kept, seq![dots]);
            assert(pieces_within(kept + seq![dots], truncated(text, max), max));
        } else if max == 0 {
            let none = Seq::<ClusterView>::empty();
            assert(pieces_within(none, truncated(text, max), max));
        } else {
            assert(pieces_within(kept, truncated(text, max), max));
        }
    }
}

/// A padded text takes no more cells than it was padded to.
pub proof fn padding_takes_no_more(text: Seq<char>, target: nat)
    ensures
        takes_at_most(padded(text, target), target),
{
    let kept = truncated(text, target);
    truncation_takes_no_more(text, target);
    if cell_width(kept) < target {
        let whole = ClusterView { text: kept, cells: cell_width(kept) as nat };
        let count = (target - cell_width(kept)) as nat;
        let blank = ClusterView { text: repeated(' ', count), cells: count };
        single_cluster(whole);
        single_cluster(blank);
        content_add(seq![whole], seq![blank]);
        cells_add(seq![whole], seq![blank]);
        assert(weighed(blank));
        assert(pieces_within(seq![whole] + seq![blank], padded(text, target), target));
    }
}

/// Spaces before a text that leaves room fill the room.
pub proof fn spaces_before_fill(text: Seq<char>, room: nat)
    requires
        cell_width(text) <= room,
    ensures
        takes_at_most(repeated(' ', (room - cell_width(text)) as nat) + text, room),
{
    let whole = ClusterView { text, cells: cell_width(text) as nat };
    let count = (room - cell_width(text)) as nat;
    let blank = ClusterView { text: repeated(' ', count), cells: count };
    single_cluster(whole);
    single_cluster(blank);
    content_add(seq![blank], seq![whole]);
    cells_add(seq![blank], seq![whole]);
    assert(weighed(blank));
    assert(pieces_within(seq![blank] + seq![whole], repeated(' ', count) + text, room));
}

// ---------------------------------------------------------------------------
// Laws of columns
// ---------------------------------------------------------------------------

/// Two slices side by side are the slice of both: no column is lost between them
/// and none is doubled.
pub proof fn slices_join(items: Seq<ClusterView>, a: nat, b: nat, c: nat)
    requires
        a <= b <= c,
    ensures
        sliced(items, a, b) + sliced(items, b, c) == sliced(items, a, c),
    decreases items.len(),
{
    if items.len() > 0 {
        let rest = items.drop_last();
        let at = cells_of(rest);
        slices_join(rest, a, b, c);
        if a <= at < b {
            starts_stay_below(rest, b, c);
            assert(sliced(items, a, b) + sliced(items, b, c) =~= sliced(items, a, c));
        } else {
            assert(sliced(items, a, b) + sliced(items, b, c) =~= sliced(items, a, c));
        }
    } else {
        assert(sliced(items, a, b) + sliced(items, b, c) =~= sliced(items, a, c));
    }
}

proof fn starts_stay_below(items: Seq<ClusterView>, start: nat, end: nat)
    requires
        cells_of(items) < start,
    ensures
        sliced(items, start, end) == Seq::<char>::empty(),
    decreases items.len(),
{
    if items.len() > 0 {
        starts_stay_below(items.drop_last(), start, end);
    }
}

/// The slice of all columns that clusters begin in is all of their text, and an
/// empty range is nothing.
pub proof fn whole_slice_is_the_text(items: Seq<ClusterView>, end: nat)
    ensures
        cells_of(items) < end ==> sliced(items, 0, end) == content(items),
        sliced(items, end, end) == Seq::<char>::empty(),
    decreases items.len(),
{
    if items.len() > 0 {
        whole_slice_is_the_text(items.drop_last(), end);
    }
}

/// A cluster is in the slice exactly if it begins in one of its columns.
pub proof fn slices_take_what_begins_there(
    items: Seq<ClusterView>,
    next: ClusterView,
    start: nat,
    end: nat,
)
    ensures
        start <= cells_of(items) < end ==> sliced(items.push(next), start, end) == sliced(
            items,
            start,
            end,
        ) + next.text,
        !(start <= cells_of(items) < end) ==> sliced(items.push(next), start, end) == sliced(
            items,
            start,
            end,
        ),
{
    assert(items.push(next).drop_last() =~= items);
}

proof fn wrap_rows_hold_something(items: Seq<ClusterView>, max: nat)
    ensures
        wrap_rows(items, max).len() >= 1,
        forall|i: int|
            0 < i < wrap_rows(items, max).len() ==> (#[trigger] wrap_rows(items, max)[i]).len() > 0,
    decreases items.len(),
{
    if items.len() > 0 {
        wrap_rows_hold_something(items.drop_last(), max);
    }
}

/// A row ends only where it is full: what begins the next row would have taken
/// more cells than there are.
pub proof fn rows_end_only_where_they_are_full(items: Seq<ClusterView>, max: nat, i: int)
    requires
        0 <= i,
        i + 1 < wrap_rows(items, max).len(),
    ensures
        wrap_rows(items, max)[i + 1].len() > 0,
        cells_of(wrap_rows(items, max)[i]) + wrap_rows(items, max)[i + 1][0].cells > max,
    decreases items.len(),
{
    if items.len() > 0 {
        let before = wrap_rows(items.drop_last(), max);
        let rows = wrap_rows(items, max);
        wrap_rows_hold_something(items.drop_last(), max);
        if i + 1 < before.len() {
            rows_end_only_where_they_are_full(items.drop_last(), max, i);
            assert(rows[i] == before[i]);
            assert(rows[i + 1][0] == before[i + 1][0]);
        } else {
            assert(rows[i] == before.last());
        }
    }
}

/// What fits on one row stays on one row.
pub proof fn short_lines_stay_on_one_row(items: Seq<ClusterView>, max: nat)
    requires
        cells_of(items) <= max,
    ensures
        wrap_rows(items, max) == seq![items],
    decreases items.len(),
{
    if items.len() > 0 {
        let before = items.drop_last();
        short_lines_stay_on_one_row(before, max);
        assert(before.push(items.last()) =~= items);
        assert(wrap_rows(items, max) =~= seq![items]);
    } else {
        assert(items =~= Seq::<ClusterView>::empty());
        assert(wrap_rows(items, max) =~= seq![items]);
    }
}

/// Each line of a text wraps on its own: the rows of a text with one more line are
/// its rows and then those of that line.
pub proof fn lines_wrap_one_by_one(text: Seq<char>, line: Seq<char>, max: nat)
    requires
        !line.contains('\n'),
        max > 0,
    ensures
        wrapped(text.push('\n') + line, max) == wrapped(text, max) + wrapped(line, max),
{
    strs::one_more_piece(text, line, '\n');
    strs::one_piece(line, '\n');
    assert(text.push('\n') + line =~= text + seq!['\n'] + line);
    let lines = split_on(text, '\n');
    assert(lines.push(line).drop_last() =~= lines);
    assert(seq![line].drop_last() =~= Seq::<Seq<char>>::empty());
    assert(wrap_lines(seq![line].drop_last(), max) =~= Seq::<Seq<char>>::empty());
    assert(wrapped(line, max) =~= row_texts(wrap_rows(measured(line), max)));
}

proof fn clusters_join(items: Seq<ClusterView>, k: int)
    requires
        0 <= k <= items.len(),
    ensures
        content(items) == content(items.take(k)) + content(items.skip(k)),
{
    content_add(items.take(k), items.skip(k));
    assert(items.take(k) + items.skip(k) =~= items);
}

/// Cutting the middle keeps a beginning and an end: what stands before the mark is
/// how the text begins, what stands behind it how it ends, and the beginning gets
/// the odd cell.
pub proof fn the_middle_is_cut(items: Seq<ClusterView>, budget: nat)
    ensures
        exists|head: Seq<char>, tail: Seq<char>| #[trigger]
            is_cut(items, budget, head, tail),
{
    let first = (budget - budget / 2) as nat;
    let last = budget / 2;
    fit_is_longest(items, first);
    fit_back_is_longest(items, last);
    let head = head_text(items, first);
    let tail = tail_text(items, last);
    clusters_join(items, fit(items, first) as int);
    clusters_join(items, items.len() - fit_back(items, last));
    assert(head =~= content(items).take(head.len() as int));
    assert(tail =~= content(items).skip(content(items).len() - tail.len()));
    assert(is_cut(items, budget, head, tail));
}

/// Whether a text was cut to this beginning and end.
pub open spec fn is_cut(
    items: Seq<ClusterView>,
    budget: nat,
    head: Seq<char>,
    tail: Seq<char>,
) -> bool {
    &&& middled_clusters(items, budget) == head + "…"@ + tail
    &&& head.is_prefix_of(content(items))
    &&& tail.is_suffix_of(content(items))
    &&& head == content(items.take(fit(items, (budget - budget / 2) as nat) as int))
}

/// Truncating keeps a beginning, and taking the tail keeps an end; three dots stand
/// for the rest wherever there is room for them.
pub proof fn truncating_keeps_one_end(items: Seq<ClusterView>, max: nat)
    requires
        max >= 3,
    ensures
        truncated_clusters(items, max).len() >= 3,
        truncated_clusters(items, max).take(truncated_clusters(items, max).len() - 3).is_prefix_of(
            content(items),
        ),
        truncated_clusters(items, max).skip(truncated_clusters(items, max).len() - 3) == "..."@,
        tailed_clusters(items, max).len() >= 3,
        tailed_clusters(items, max).skip(3).is_suffix_of(content(items)),
        tailed_clusters(items, max).take(3) == "..."@,
{
    reveal_strlit("...");
    let budget = (max - 3) as nat;
    fit_is_longest(items, budget);
    fit_back_is_longest(items, budget);
    let head = head_text(items, budget);
    let tail = tail_text(items, budget);
    clusters_join(items, fit(items, budget) as int);
    clusters_join(items, items.len() - fit_back(items, budget));
    let cut = truncated_clusters(items, max);
    assert(cut.take(cut.len() - 3) =~= head);
    assert(cut.skip(cut.len() - 3) =~= "..."@);
    assert(head =~= content(items).take(head.len() as int));
    let ended = tailed_clusters(items, max);
    assert(ended.skip(3) =~= tail);
    assert(ended.take(3) =~= "..."@);
    assert(tail =~= content(items).skip(content(items).len() - tail.len()));
}

/// Wrapped rows hang under their lead: the first row begins with it, and every
/// other with the one for further rows; behind them stands the text, wrapped in
/// what is left of the width.
pub proof fn rows_hang_under_their_lead(
    text: Seq<char>,
    max: nat,
    first: Seq<char>,
    rest: Seq<char>,
    i: int,
)
    requires
        text.len() > 0,
        max > cell_width(first),
        0 <= i < wrapped_behind(text, max, first, rest).len(),
    ensures
        wrapped_behind(text, max, first, rest).len() == wrapped(
            text,
            (max - cell_width(first)) as nat,
        ).len(),
        i == 0 ==> wrapped_behind(text, max, first, rest)[i] == first + wrapped(
            text,
            (max - cell_width(first)) as nat,
        )[i],
        i > 0 ==> wrapped_behind(text, max, first, rest)[i] == rest + wrapped(
            text,
            (max - cell_width(first)) as nat,
        )[i],
{
}

/// The last rows of a text are its last rows: none is left out at the end, and no
/// more are taken than asked for.
pub proof fn last_rows_are_the_end(text: Seq<char>, max: nat, count: nat)
    ensures
        last_rows(text, max, count).len() <= count,
        last_rows(text, max, count).is_suffix_of(wrapped(text, max)),
        wrapped(text, max).len() <= count ==> last_rows(text, max, count) == wrapped(text, max),
        wrapped(text, max).len() >= count ==> last_rows(text, max, count).len() == count,
{
    let rows = wrapped(text, max);
    let last = last_rows(text, max, count);
    assert(last =~= rows.skip(rows.len() - last.len()));
}

/// The marks of a tool's rows hang: the rows under a bullet and under a corner are
/// indented as far, and those of a change repeat its sign.
pub proof fn marks_hang(text: Seq<char>, max: nat)
    ensures
        wrapped_hanging("  └ "@ + text, max) == wrapped_behind(text, max, "  └ "@, "    "@),
        wrapped_hanging("• "@ + text, max) == wrapped_behind(text, max, "• "@, "  "@),
        wrapped_hanging("+ "@ + text, max) == wrapped_behind(text, max, "+ "@, "+ "@),
        wrapped_hanging("- "@ + text, max) == wrapped_behind(text, max, "- "@, "- "@),
        wrapped_hanging("    "@ + text, max) == wrapped_behind(text, max, "    "@, "    "@),
{
    reveal_strlit("  └ ");
    reveal_strlit("    ");
    reveal_strlit("  ");
    reveal_strlit("• ");
    reveal_strlit("+ ");
    reveal_strlit("+");
    reveal_strlit("- ");
    let corner = "  └ "@ + text;
    assert(corner.take(4) =~= "  └ "@);
    assert(corner.skip(4) =~= text);
    let deep = "    "@ + text;
    assert(deep.take(4) =~= "    "@);
    assert(deep.take(4)[2] != "  └ "@[2]);
    assert(deep.skip(4) =~= text);
    let bullet = "• "@ + text;
    assert(bullet.take(2) =~= "• "@);
    assert(bullet[0] == '•');
    assert(bullet.skip(2) =~= text);
    lead_differs(bullet, "  └ "@);
    lead_differs(bullet, "    "@);
    lead_differs(bullet, "  "@);
    let more = "+ "@ + text;
    assert(more.take(2) =~= "+ "@);
    assert(more[0] == '+');
    assert(more.skip(2) =~= text);
    lead_differs(more, "  └ "@);
    lead_differs(more, "    "@);
    lead_differs(more, "  "@);
    lead_differs(more, "• "@);
    let less = "- "@ + text;
    assert(less.take(2) =~= "- "@);
    assert(less[0] == '-');
    assert(less.skip(2) =~= text);
    lead_differs(less, "  └ "@);
    lead_differs(less, "    "@);
    lead_differs(less, "  "@);
    lead_differs(less, "• "@);
    lead_differs(less, "+ "@);
    lead_differs(less, "+"@);
}

proof fn lead_differs(text: Seq<char>, lead: Seq<char>)
    requires
        text.len() > 0,
        lead.len() > 0,
        text[0] != lead[0],
    ensures
        !begins(text, lead),
{
    if begins(text, lead) {
        assert(text.take(lead.len() as int)[0] == text[0]);
    }
}

} // verus!
