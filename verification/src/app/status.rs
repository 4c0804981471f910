//! Composer-dashboard projection: pure data to corner lines.

use vstd::prelude::*;

use super::frontend::{no_usage, FrontendTokenUsage};
use super::ratio::{
    percent_tenths, percentage, percentages_are_close, share, share_tenths, shares_are_close,
    short_decimal, without_zero,
};
use super::text;
use super::text::{cell_width, ellipsized, middled};
use super::transcript::InfoLevel;
use crate::strs;
use crate::strs::{clone_opt, decimal, join, numeral_value};

verus! {

/// Cells between the bottom row's left and right corners.
pub const CORNER_GAP: usize = 4;

/// Cell budget of the compact middle-ellipsized path, the form the path takes
/// before any usage field degrades.
pub const COMPACT_PATH_CELLS: usize = 7;

/// Everything the composer dashboard shows; the event loop keeps this current.
#[derive(Clone, Debug)]
pub struct StatusData {
    pub model: String,
    pub session: String,
    pub busy: bool,
    /// A manual compaction or automatic pre-turn compaction is active.
    pub compacting: bool,
    pub usage: Option<FrontendTokenUsage>,
    /// Context-budget hint: the configured or capability-derived window.
    pub context_window: Option<u64>,
    pub level: InfoLevel,
    /// Owning provider id, from the model catalog's current entry.
    pub provider: Option<String>,
    /// Active reasoning-effort label, from the installed generation.
    pub effort: Option<String>,
    /// Workspace root injected by the composition root; never probed here.
    pub workspace_root: String,
}

/// A [`StatusData`] as a mathematical value.
pub struct StatusView {
    pub model: Seq<char>,
    pub session: Seq<char>,
    pub busy: bool,
    pub compacting: bool,
    pub usage: Option<FrontendTokenUsage>,
    pub context_window: Option<u64>,
    pub level: InfoLevel,
    pub provider: Option<Seq<char>>,
    pub effort: Option<Seq<char>>,
    pub workspace_root: Seq<char>,
}

impl View for StatusData {
    type V = StatusView;

    open spec fn view(&self) -> StatusView {
        StatusView {
            model: self.model@,
            session: self.session@,
            busy: self.busy,
            compacting: self.compacting,
            usage: self.usage,
            context_window: self.context_window,
            level: self.level,
            provider: self.provider.deep_view(),
            effort: self.effort.deep_view(),
            workspace_root: self.workspace_root@,
        }
    }
}

// ---------------------------------------------------------------------------
// Numbers
// ---------------------------------------------------------------------------

/// A token count: thousands and millions abbreviated to one decimal.
pub open spec fn token_text(value: u64) -> Seq<char> {
    if value >= 1_000_000 {
        short_decimal(share(value, 1_000_000)) + "m"@
    } else if value >= 1000 {
        short_decimal(share(value, 1000)) + "k"@
    } else {
        decimal(value as nat)
    }
}

/// A count that may be unknown.
pub open spec fn count_text(value: Option<u64>) -> Seq<char> {
    match value {
        Some(value) => token_text(value),
        None => "-"@,
    }
}

/// A share of a whole in percent; unknown where there is no whole.
pub open spec fn percent_text(part: u64, whole: u64) -> Seq<char> {
    if whole == 0 {
        "-"@
    } else {
        short_decimal(percentage(part, whole)) + "%"@
    }
}

pub fn tokens(value: u64) -> (text: String)
    ensures
        text@ == token_text(value),
{
    if value >= 1_000_000 {
        strs::cat(without_zero(share_tenths(value, 1_000_000)).as_str(), "m")
    } else if value >= 1000 {
        strs::cat(without_zero(share_tenths(value, 1000)).as_str(), "k")
    } else {
        strs::number(value)
    }
}

pub fn dash_or(value: Option<u64>) -> (text: String)
    ensures
        text@ == count_text(value),
{
    match value {
        Some(value) => tokens(value),
        None => "-".to_owned(),
    }
}

pub fn percent(part: u64, whole: u64) -> (text: String)
    ensures
        text@ == percent_text(part, whole),
{
    if whole == 0 {
        return "-".to_owned();
    }
    strs::cat(without_zero(percent_tenths(part, whole)).as_str(), "%")
}

// ---------------------------------------------------------------------------
// Usage
// ---------------------------------------------------------------------------

/// Input and output tokens.
pub open spec fn arrows(usage: FrontendTokenUsage) -> Seq<char> {
    "↑"@ + count_text(usage.input_tokens) + " ↓"@ + count_text(usage.output_tokens)
}

/// Reasoning tokens.
pub open spec fn reasoning(usage: FrontendTokenUsage) -> Seq<char> {
    "R"@ + count_text(usage.reasoning_tokens)
}

/// The share of the input that came from the cache.
pub open spec fn cache(usage: FrontendTokenUsage) -> Seq<char> {
    match (usage.cache_read_tokens, usage.input_tokens) {
        (Some(read), Some(input)) => if input > 0 {
            "C"@ + percent_text(read, input)
        } else {
            "C-"@
        },
        _ => "C-"@,
    }
}

/// The share of the context window that the input fills, and the window.
pub open spec fn context(usage: FrontendTokenUsage, window: Option<u64>) -> Seq<char> {
    let share = match (usage.input_tokens, window) {
        (Some(input), Some(window)) => if window > 0 {
            percent_text(input, window)
        } else {
            "-"@
        },
        _ => "-"@,
    };
    share + "/"@ + count_text(window)
}

/// Usage-corner candidates from most to least content: full, without the cache,
/// without the reasoning, without the arrows, empty.
pub open spec fn stages(usage: Option<FrontendTokenUsage>, window: Option<u64>) -> Seq<Seq<char>> {
    let known = match usage {
        Some(usage) => usage,
        None => no_usage(),
    };
    let tail = context(known, window);
    let led = arrows(known) + " "@;
    seq![
        led + reasoning(known) + " "@ + cache(known) + " "@ + tail,
        led + reasoning(known) + " "@ + tail,
        led + tail,
        tail,
        Seq::empty(),
    ]
}

// ---------------------------------------------------------------------------
// Corners
// ---------------------------------------------------------------------------

/// The first of the texts from `i` on that fits beside `left` cells, or nothing.
pub open spec fn first_fitting(texts: Seq<Seq<char>>, i: int, left: nat, max: nat) -> Option<int>
    decreases texts.len() - i,
{
    if i >= texts.len() {
        None
    } else if left + cell_width(texts[i]) as nat <= max {
        Some(i)
    } else {
        first_fitting(texts, i + 1, left, max)
    }
}

/// The bottom row: path left, usage right. The verbatim path yields to its
/// compact form before any usage field drops; then the usage shrinks stage by
/// stage; in the end the path keeps what remains.
pub open spec fn bottom_corners(status: StatusView, max: nat) -> (Seq<char>, Seq<char>) {
    let usage = stages(status.usage, status.context_window);
    let root = status.workspace_root;
    if root.len() == 0 {
        match first_fitting(usage, 0, 0, max) {
            Some(i) => (Seq::empty(), usage[i]),
            None => (Seq::empty(), Seq::empty()),
        }
    } else if cell_width(root) as nat + CORNER_GAP as nat + cell_width(usage[0]) as nat <= max {
        (root, usage[0])
    } else {
        let compact = middled(
            root,
            if max < COMPACT_PATH_CELLS {
                max
            } else {
                COMPACT_PATH_CELLS as nat
            },
        );
        match first_fitting(usage, 0, cell_width(compact) as nat + CORNER_GAP as nat, max) {
            Some(i) => (compact, usage[i]),
            None => (middled(root, max), Seq::empty()),
        }
    }
}

/// Right-top corner after width degradation: provider and effort may have been
/// dropped and the model truncated.
#[derive(Clone, Debug, PartialEq, Eq)]
pub struct ModelCorner {
    pub provider: Option<String>,
    pub model: String,
    pub effort: Option<String>,
}

/// A [`ModelCorner`] as a mathematical value.
pub struct ModelView {
    pub provider: Option<Seq<char>>,
    pub model: Seq<char>,
    pub effort: Option<Seq<char>>,
}

impl DeepView for ModelCorner {
    type V = ModelView;

    open spec fn deep_view(&self) -> ModelView {
        ModelView {
            provider: self.provider.deep_view(),
            model: self.model@,
            effort: self.effort.deep_view(),
        }
    }
}

/// The cells an optional part takes with its decoration.
pub open spec fn part_cells(part: Option<Seq<char>>) -> nat {
    match part {
        Some(text) => cell_width(text) as nat + 3,
        None => 0,
    }
}

pub open spec fn model_cells(corner: ModelView) -> nat {
    cell_width(corner.model) as nat + part_cells(corner.provider) + part_cells(corner.effort)
}

/// The model corner within `max` cells: effort drops first, then the provider,
/// then the model is truncated.
pub open spec fn model_corner(status: StatusView, max: nat) -> Option<ModelView> {
    let whole = ModelView {
        provider: status.provider,
        model: status.model,
        effort: status.effort,
    };
    let calm = ModelView { effort: None, ..whole };
    let bare = ModelView { provider: None, ..calm };
    if status.model.len() == 0 {
        None
    } else if model_cells(whole) <= max {
        Some(whole)
    } else if model_cells(calm) <= max {
        Some(calm)
    } else if model_cells(bare) <= max {
        Some(bare)
    } else {
        Some(ModelView { model: ellipsized(status.model, max), ..bare })
    }
}

/// Whether three widths together stay within `max`.
fn fit_together(a: usize, b: usize, c: usize, max: usize) -> (yes: bool)
    ensures
        yes == (a + b + c <= max),
{
    a <= max && b <= max - a && c <= max - a - b
}

/// Whether the model and the parts that are shown stay within `max`.
fn model_fits(model: usize, provider: &Option<String>, effort: &Option<String>, max: usize) -> (yes:
    bool)
    ensures
        yes == (model + part_cells(provider.deep_view()) + part_cells(effort.deep_view()) <= max),
{
    let mut left = max;
    if model > left {
        return false;
    }
    left -= model;
    if let Some(text) = provider {
        let cells = text::width(text.as_str());
        if left < 3 || cells > left - 3 {
            return false;
        }
        left = left - 3 - cells;
    }
    if let Some(text) = effort {
        let cells = text::width(text.as_str());
        if left < 3 || cells > left - 3 {
            return false;
        }
    }
    true
}

impl Default for StatusData {
    fn default() -> (status: StatusData)
        ensures
            status@ == (StatusView {
                model: Seq::empty(),
                session: Seq::empty(),
                busy: false,
                compacting: false,
                usage: None,
                context_window: None,
                level: InfoLevel::Default,
                provider: None,
                effort: None,
                workspace_root: Seq::empty(),
            }),
    {
        proof {
            reveal_strlit("");
            assert(""@ =~= Seq::<char>::empty());
        }
        StatusData::new("", "", InfoLevel::Default)
    }
}

impl StatusData {
    pub fn new(model: &str, session: &str, level: InfoLevel) -> (status: StatusData)
        ensures
            status@ == (StatusView {
                model: model@,
                session: session@,
                busy: false,
                compacting: false,
                usage: None,
                context_window: None,
                level,
                provider: None,
                effort: None,
                workspace_root: Seq::empty(),
            }),
    {
        StatusData {
            model: model.to_owned(),
            session: session.to_owned(),
            busy: false,
            compacting: false,
            usage: None,
            context_window: None,
            level,
            provider: None,
            effort: None,
            workspace_root: String::new(),
        }
    }

    /// First line of the `/status` dump: model, session, latest-turn usage and
    /// context share.
    pub fn summary_line(&self) -> (line: String)
        ensures
            line@ == summary(self@),
    {
        let mut parts: Vec<String> = Vec::new();
        if !self.model.as_str().is_empty() {
            parts.push(self.model.clone());
        }
        if !self.session.as_str().is_empty() {
            parts.push(strs::cat("session ", self.session.as_str()));
        }
        let usage = self.usage_stages();
        assert(usage.deep_view()[0] == usage@[0]@);
        parts.push(usage[0].clone());
        proof {
            assert(parts.deep_view() =~= summary_parts(self@));
        }
        strs::joined(&parts, " · ")
    }

    /// Right-top corner: `({provider}) {model} · {effort}`. Unknown fields drop
    /// whole.
    pub fn model_corner_for(&self, max_width: usize) -> (corner: Option<ModelCorner>)
        ensures
            corner.deep_view() == model_corner(self@, max_width as nat),
    {
        if self.model.as_str().is_empty() {
            return None;
        }
        let model = text::width(self.model.as_str());
        let none: Option<String> = None;
        if model_fits(model, &self.provider, &self.effort, max_width) {
            return Some(
                ModelCorner {
                    provider: clone_opt(&self.provider),
                    model: self.model.clone(),
                    effort: clone_opt(&self.effort),
                },
            );
        }
        if model_fits(model, &self.provider, &none, max_width) {
            return Some(
                ModelCorner {
                    provider: clone_opt(&self.provider),
                    model: self.model.clone(),
                    effort: None,
                },
            );
        }
        if model <= max_width {
            return Some(
                ModelCorner { provider: None, model: self.model.clone(), effort: None },
            );
        }
        Some(
            ModelCorner {
                provider: None,
                model: text::ellipsize(self.model.as_str(), max_width),
                effort: None,
            },
        )
    }

    /// The first usage stage that fits beside `left` cells.
    fn fitting_stage(usage: &Vec<String>, left: usize, max_width: usize) -> (found: Option<usize>)
        ensures
            match found {
                Some(i) => i < usage@.len() && first_fitting(
                    usage.deep_view(),
                    0,
                    left as nat,
                    max_width as nat,
                ) == Some(i as int),
                None => first_fitting(usage.deep_view(), 0, left as nat, max_width as nat) is None,
            },
    {
        let mut i: usize = 0;
        while i < usage.len()
            invariant
                i <= usage.len(),
                first_fitting(usage.deep_view(), 0, left as nat, max_width as nat)
                    == first_fitting(usage.deep_view(), i as int, left as nat, max_width as nat),
            decreases usage.len() - i,
        {
            assert(usage.deep_view()[i as int] == usage@[i as int]@);
            if fit_together(left, text::width(usage[i].as_str()), 0, max_width) {
                return Some(i);
            }
            i += 1;
        }
        None
    }

    /// Bottom band row: workspace path left, latest-turn usage right.
    pub fn bottom_corners_for(&self, max_width: usize) -> (corners: (String, String))
        ensures
            (corners.0@, corners.1@) == bottom_corners(self@, max_width as nat),
    {
        let usage = self.usage_stages();
        let root = self.workspace_root.as_str();
        if root.is_empty() {
            return match StatusData::fitting_stage(&usage, 0, max_width) {
                Some(i) => (String::new(), usage[i].clone()),
                None => (String::new(), String::new()),
            };
        }
        assert(usage.deep_view()[0] == usage@[0]@);
        if fit_together(text::width(root), CORNER_GAP, text::width(usage[0].as_str()), max_width) {
            return (self.workspace_root.clone(), usage[0].clone());
        }
        let compact = text::truncate_mid(
            root,
            if max_width < COMPACT_PATH_CELLS {
                max_width
            } else {
                COMPACT_PATH_CELLS
            },
        );
        let path = text::width(compact.as_str());
        if path <= usize::MAX - CORNER_GAP {
            if let Some(i) = StatusData::fitting_stage(&usage, path + CORNER_GAP, max_width) {
                return (compact, usage[i].clone());
            }
        } else {
            proof {
                nothing_fits(
                    usage.deep_view(),
                    0,
                    path as nat + CORNER_GAP as nat,
                    max_width as nat,
                );
            }
        }
        (text::truncate_mid(root, max_width), String::new())
    }

    /// Usage-corner candidates from most to least content.
    pub fn usage_stages(&self) -> (texts: Vec<String>)
        ensures
            texts.deep_view() == stages(self@.usage, self@.context_window),
            texts@.len() == 5,
    {
        let usage = match self.usage {
            Some(usage) => usage,
            None => FrontendTokenUsage::default(),
        };
        let mut led = strs::cat("↑", dash_or(usage.input_tokens).as_str());
        led.push_str(" ↓");
        led.push_str(dash_or(usage.output_tokens).as_str());
        led.push_str(" ");
        let reasoning = strs::cat("R", dash_or(usage.reasoning_tokens).as_str());
        let cache = match (usage.cache_read_tokens, usage.input_tokens) {
            (Some(read), Some(input)) => if input > 0 {
                strs::cat("C", percent(read, input).as_str())
            } else {
                "C-".to_owned()
            },
            _ => "C-".to_owned(),
        };
        let mut tail = match (usage.input_tokens, self.context_window) {
            (Some(input), Some(window)) => if window > 0 {
                percent(input, window)
            } else {
                "-".to_owned()
            },
            _ => "-".to_owned(),
        };
        tail.push_str("/");
        tail.push_str(dash_or(self.context_window).as_str());
        let calm = strs::cat3(led.as_str(), reasoning.as_str(), " ");
        let mut full = strs::cat3(calm.as_str(), cache.as_str(), " ");
        full.push_str(tail.as_str());
        let plain = strs::cat(calm.as_str(), tail.as_str());
        let flat = strs::cat(led.as_str(), tail.as_str());
        let mut texts: Vec<String> = Vec::new();
        texts.push(full);
        texts.push(plain);
        texts.push(flat);
        texts.push(tail);
        texts.push(String::new());
        proof {
            assert(texts.deep_view() =~= stages(self@.usage, self@.context_window));
        }
        texts
    }
}

proof fn nothing_fits(texts: Seq<Seq<char>>, i: int, left: nat, max: nat)
    requires
        left > max,
        i >= 0,
    ensures
        first_fitting(texts, i, left, max) is None,
    decreases texts.len() - i,
{
    if i < texts.len() {
        nothing_fits(texts, i + 1, left, max);
    }
}

/// The parts of the summary that are known.
pub open spec fn summary_parts(status: StatusView) -> Seq<Seq<char>> {
    let model = if status.model.len() == 0 {
        Seq::empty()
    } else {
        seq![status.model]
    };
    let session = if status.session.len() == 0 {
        model
    } else {
        model.push("session "@ + status.session)
    };
    session.push(stages(status.usage, status.context_window)[0])
}

/// Model, session and the full usage, as far as they are known.
pub open spec fn summary(status: StatusView) -> Seq<char> {
    join(summary_parts(status), " · "@)
}

// ---------------------------------------------------------------------------
// Laws
// ---------------------------------------------------------------------------

/// The model corner degrades in order: the provider is dropped only after the
/// effort, the model truncated only after the provider.
pub proof fn corner_degrades_in_order(status: StatusView, max: nat)
    requires
        status.model.len() > 0,
    ensures
        ({
            let corner = model_corner(status, max).unwrap();
            &&& corner.effort is Some ==> corner.provider == status.provider && corner.effort
                == status.effort
            &&& corner.provider is Some ==> corner.provider == status.provider
            &&& corner.model != status.model ==> corner.provider is None && corner.effort is None
        }),
{
}

/// The usage shrinks only as far as it must: every fuller stage than the one
/// shown would not have fit.
pub proof fn usage_shrinks_no_further_than_needed(
    texts: Seq<Seq<char>>,
    from: int,
    left: nat,
    max: nat,
    k: int,
)
    requires
        0 <= from <= k,
        match first_fitting(texts, from, left, max) {
            Some(i) => k < i,
            None => k < texts.len(),
        },
    ensures
        left + cell_width(texts[k]) as nat > max,
    decreases texts.len() - from,
{
    if from < texts.len() && !(left + cell_width(texts[from]) as nat <= max) && from < k {
        usage_shrinks_no_further_than_needed(texts, from + 1, left, max, k);
    }
}

/// Whether a text tells `value` out of `unit` to the tenth, with a sign behind it.
pub open spec fn told_short(text: Seq<char>, value: nat, unit: nat, sign: Seq<char>) -> bool {
    exists|n: nat|
        text == #[trigger] short_decimal(n) + sign && n * unit < 10 * value + unit && n * unit
            + unit > 10 * value
}

/// A count below a thousand is told as it is, one below a million in thousands
/// and any other in millions, these two to the tenth.
pub proof fn counts_are_told_short(value: u64)
    requires
        value < 0x1_0000_0000_0000,
    ensures
        value < 1000 ==> numeral_value(count_text(Some(value))) == value,
        1000 <= value < 1_000_000 ==> told_short(
            count_text(Some(value)),
            value as nat,
            1000,
            "k"@,
        ),
        1_000_000 <= value ==> told_short(count_text(Some(value)), value as nat, 1_000_000, "m"@),
        count_text(None) == "-"@,
{
    if value < 1000 {
        strs::numerals_read_back(value as nat);
    } else if value < 1_000_000 {
        shares_are_close(value, 1000);
        assert(token_text(value) == short_decimal(share(value, 1000)) + "k"@);
    } else {
        shares_are_close(value, 1_000_000);
        assert(token_text(value) == short_decimal(share(value, 1_000_000)) + "m"@);
    }
}

/// A share is told in percent, to the tenth.
pub proof fn shares_are_told_in_percent(part: u64, whole: u64)
    requires
        part < 0x100_0000_0000,
        0 < whole < 0x20_0000_0000_0000,
    ensures
        told_short(percent_text(part, whole), (100 * part) as nat, whole as nat, "%"@),
{
    percentages_are_close(part, whole);
    assert(percent_text(part, whole) == short_decimal(percentage(part, whole)) + "%"@);
}

/// The usage tells what went in and came out, the reasoning, the share of the
/// input that was read from the cache and the share of the window that the input
/// fills; with less room the cache goes first, then the reasoning, then the two
/// counts.
pub proof fn usage_tells_its_counts(usage: FrontendTokenUsage, window: u64)
    requires
        usage.input_tokens is Some,
        usage.input_tokens.unwrap() > 0,
        usage.cache_read_tokens is Some,
        window > 0,
    ensures
        ({
            let told = stages(Some(usage), Some(window));
            let flow = "↑"@ + count_text(usage.input_tokens) + " ↓"@ + count_text(
                usage.output_tokens,
            ) + " "@;
            let thought = "R"@ + count_text(usage.reasoning_tokens) + " "@;
            let cached = "C"@ + percent_text(
                usage.cache_read_tokens.unwrap(),
                usage.input_tokens.unwrap(),
            ) + " "@;
            let filled = percent_text(usage.input_tokens.unwrap(), window) + "/"@ + count_text(
                Some(window),
            );
            &&& told.len() == 5
            &&& told[0] == flow + thought + cached + filled
            &&& told[1] == flow + thought + filled
            &&& told[2] == flow + filled
            &&& told[3] == filled
            &&& told[4].len() == 0
        }),
{
    let told = stages(Some(usage), Some(window));
    let flow = "↑"@ + count_text(usage.input_tokens) + " ↓"@ + count_text(usage.output_tokens)
        + " "@;
    let thought = "R"@ + count_text(usage.reasoning_tokens) + " "@;
    let cached = "C"@ + percent_text(usage.cache_read_tokens.unwrap(), usage.input_tokens.unwrap())
        + " "@;
    let filled = percent_text(usage.input_tokens.unwrap(), window) + "/"@ + count_text(
        Some(window),
    );
    assert(context(usage, Some(window)) == filled);
    assert(told[0] =~= flow + thought + cached + filled);
    assert(told[1] =~= flow + thought + filled);
    assert(told[2] =~= flow + filled);
}

/// What is not known is told by a dash, whether or not the rest is.
pub proof fn unknown_usage_is_dashed(usage: FrontendTokenUsage, window: Option<u64>)
    ensures
        usage.cache_read_tokens is None || usage.input_tokens is None ==> cache(usage) == "C-"@,
        usage.input_tokens is None || window is None ==> context(usage, window) == "-"@ + "/"@
            + count_text(window),
        usage.reasoning_tokens is None ==> reasoning(usage) == "R"@ + "-"@,
{
}

/// The two bottom corners fit beside each other with four cells between them;
/// where the whole path and the full usage do, both are shown as they are.
pub proof fn bottom_corners_fit(status: StatusView, max: nat)
    ensures
        ({
            let (left, right) = bottom_corners(status, max);
            let full = stages(status.usage, status.context_window)[0];
            &&& left.len() > 0 && right.len() > 0 ==> cell_width(left) + 4 + cell_width(right)
                <= max
            &&& left.len() == 0 && right.len() > 0 && status.workspace_root.len() == 0
                ==> cell_width(right) <= max
            &&& status.workspace_root.len() > 0 && cell_width(status.workspace_root) + 4
                + cell_width(full) <= max ==> left == status.workspace_root && right == full
            &&& status.workspace_root.len() == 0 ==> left.len() == 0
            &&& status.workspace_root.len() == 0 && cell_width(full) <= max ==> right == full
        }),
{
    let usage = stages(status.usage, status.context_window);
    if status.workspace_root.len() == 0 {
        fitting_fits(usage, 0, 0, max);
    } else {
        let compact = middled(
            status.workspace_root,
            if max < COMPACT_PATH_CELLS {
                max
            } else {
                COMPACT_PATH_CELLS as nat
            },
        );
        fitting_fits(usage, 0, cell_width(compact) as nat + CORNER_GAP as nat, max);
    }
}

proof fn fitting_fits(texts: Seq<Seq<char>>, i: int, left: nat, max: nat)
    requires
        0 <= i,
    ensures
        match first_fitting(texts, i, left, max) {
            Some(k) => i <= k < texts.len() && left + cell_width(texts[k]) <= max,
            None => true,
        },
    decreases texts.len() - i,
{
    if i < texts.len() && left + cell_width(texts[i]) as nat > max {
        fitting_fits(texts, i + 1, left, max);
    }
}

/// The model corner keeps what fits: model, provider and effort with three cells
/// for each of the last two, or the first two, or the model; and none is shown
/// where no model is known.
pub proof fn the_corner_keeps_what_fits(status: StatusView, max: nat)
    requires
        status.model.len() > 0,
    ensures
        ({
            let corner = model_corner(status, max);
            let provider = if status.provider is Some {
                cell_width(status.provider.unwrap()) + 3
            } else {
                0
            };
            let effort = if status.effort is Some {
                cell_width(status.effort.unwrap()) + 3
            } else {
                0
            };
            let model = cell_width(status.model) as int;
            &&& corner is Some
            &&& model + provider + effort <= max ==> corner.unwrap() == (ModelView {
                provider: status.provider,
                model: status.model,
                effort: status.effort,
            })
            &&& model + provider <= max && model + provider + effort > max ==> corner.unwrap() == (
            ModelView { provider: status.provider, model: status.model, effort: None })
            &&& model <= max && model + provider > max ==> corner.unwrap() == (ModelView {
                provider: None,
                model: status.model,
                effort: None,
            })
            &&& model > max ==> corner.unwrap() == (ModelView {
                provider: None,
                model: ellipsized(status.model, max),
                effort: None,
            })
        }),
        model_corner(StatusView { model: Seq::empty(), ..status }, max) is None,
{
}

/// A summary names the model and the session where they are known, and the full
/// usage in any case.
pub proof fn summaries_name_what_is_known(status: StatusView)
    ensures
        ({
            let usage = stages(status.usage, status.context_window)[0];
            let model = status.model;
            let session = "session "@ + status.session;
            &&& model.len() > 0 && status.session.len() > 0 ==> summary(status) == model + " · "@
                + session + " · "@ + usage
            &&& model.len() > 0 && status.session.len() == 0 ==> summary(status) == model + " · "@
                + usage
            &&& model.len() == 0 && status.session.len() > 0 ==> summary(status) == session
                + " · "@ + usage
            &&& model.len() == 0 && status.session.len() == 0 ==> summary(status) == usage
        }),
{
    reveal_with_fuel(join, 4);
    let parts = summary_parts(status);
    let usage = stages(status.usage, status.context_window)[0];
    if parts.len() == 3 {
        assert(parts.drop_last() =~= seq![status.model, "session "@ + status.session]);
        assert(parts.drop_last().drop_last() =~= seq![status.model]);
    } else if parts.len() == 2 {
        assert(parts.drop_last() =~= seq![parts[0]]);
    }
}

} // verus!
