//! Config and status listing projection. Pure formatting.

use vstd::prelude::*;
use vstd::utf8::encode_utf8;

use super::command::{align_left, left_aligned};
use super::transcript::{line, plain_line, LineKind, LineView, TranscriptLine};
use crate::strs;
use crate::strs::decimal;

verus! {

/// One effective configuration entry with the layer it came from.
#[derive(Clone, Debug, PartialEq, Eq)]
pub struct FrontendConfigEntry {
    pub key: String,
    pub value: String,
    pub source: String,
}

/// A [`FrontendConfigEntry`] as a mathematical value.
pub struct ConfigView {
    pub key: Seq<char>,
    pub value: Seq<char>,
    pub source: Seq<char>,
}

impl DeepView for FrontendConfigEntry {
    type V = ConfigView;

    open spec fn deep_view(&self) -> ConfigView {
        ConfigView { key: self.key@, value: self.value@, source: self.source@ }
    }
}

/// One tool of the frozen lineup.
#[derive(Clone, Debug, PartialEq, Eq)]
pub struct FrontendToolListing {
    pub name: String,
    pub effect_class: String,
}

/// A [`FrontendToolListing`] as a mathematical value.
pub struct ToolView {
    pub name: Seq<char>,
    pub effect_class: Seq<char>,
}

impl DeepView for FrontendToolListing {
    type V = ToolView;

    open spec fn deep_view(&self) -> ToolView {
        ToolView { name: self.name@, effect_class: self.effect_class@ }
    }
}

/// What `/status` learns from the service.
#[derive(Clone, Debug, PartialEq, Eq)]
pub struct FrontendStatus {
    pub tools: Vec<FrontendToolListing>,
}

/// The bytes of the longest key.
pub open spec fn key_len(entries: Seq<ConfigView>) -> nat
    decreases entries.len(),
{
    if entries.len() == 0 {
        0
    } else {
        let before = key_len(entries.drop_last());
        let len = encode_utf8(entries.last().key).len() as usize;
        if len > before {
            len as nat
        } else {
            before
        }
    }
}

/// One row of the configuration listing.
pub open spec fn config_row(entry: ConfigView, len: nat) -> Seq<char> {
    "  "@ + left_aligned(entry.key, len) + " = "@ + entry.value + "  ["@ + entry.source + "]"@
}

/// The configuration listing.
pub open spec fn config_listing(entries: Seq<ConfigView>) -> Seq<LineView> {
    if entries.len() == 0 {
        seq![plain_line(LineKind::Meta, "config: no effective entries"@)]
    } else {
        seq![plain_line(LineKind::Meta, "config (effective):"@)] + entries.map_values(
            |e: ConfigView| plain_line(LineKind::Meta, config_row(e, key_len(entries))),
        )
    }
}

pub fn config_lines(entries: &Vec<FrontendConfigEntry>) -> (lines: Vec<TranscriptLine>)
    ensures
        lines.deep_view() == config_listing(entries.deep_view()),
{
    let ghost all = entries.deep_view();
    let mut lines: Vec<TranscriptLine> = Vec::new();
    if entries.len() == 0 {
        lines.push(line(LineKind::Meta, "config: no effective entries"));
        proof {
            assert(lines.deep_view() =~= config_listing(all));
        }
        return lines;
    }
    let mut width: usize = 0;
    let mut i: usize = 0;
    while i < entries.len()
        invariant
            i <= entries.len(),
            all == entries.deep_view(),
            width == key_len(all.take(i as int)),
        decreases entries.len() - i,
    {
        proof {
            assert(all.take(i as int + 1).drop_last() =~= all.take(i as int));
        }
        let len = entries[i].key.as_str().len();
        if len > width {
            width = len;
        }
        i += 1;
    }
    proof {
        assert(all.take(i as int) =~= all);
    }
    lines.push(line(LineKind::Meta, "config (effective):"));
    let ghost expected = config_listing(all);
    let mut j: usize = 0;
    while j < entries.len()
        invariant
            j <= entries.len(),
            all == entries.deep_view(),
            width == key_len(all),
            all.len() > 0,
            expected == config_listing(all),
            lines.len() == j + 1,
            forall|k: int| 0 <= k <= j ==> (#[trigger] lines@[k]).deep_view() == expected[k],
        decreases entries.len() - j,
    {
        let entry = &entries[j];
        let mut row = strs::cat("  ", align_left(entry.key.as_str(), width).as_str());
        row.push_str(" = ");
        row.push_str(entry.value.as_str());
        row.push_str("  [");
        row.push_str(entry.source.as_str());
        row.push_str("]");
        lines.push(line(LineKind::Meta, row.as_str()));
        j += 1;
    }
    proof {
        assert(lines.deep_view() =~= expected);
    }
    lines
}

/// How an effect class is shown.
pub open spec fn class_label(class: Seq<char>) -> Seq<char> {
    if class == "read_only"@ || class == "ReadOnly"@ {
        "read-only"@
    } else {
        class
    }
}

pub fn effect_class_label(class: &str) -> (label: String)
    ensures
        label@ == class_label(class@),
{
    if strs::same(class, "read_only") || strs::same(class, "ReadOnly") {
        "read-only".to_owned()
    } else {
        class.to_owned()
    }
}

/// One row of the tool lineup.
pub open spec fn tool_row(tool: ToolView) -> LineView {
    plain_line(
        LineKind::Meta,
        "  "@ + tool.name + " ["@ + class_label(tool.effect_class) + "]"@,
    )
}

/// The status listing: the summary, the attachments, the tools.
pub open spec fn status_listing(
    status_line: Seq<char>,
    attachments: Option<Seq<char>>,
    tools: Seq<ToolView>,
) -> Seq<LineView> {
    let head = seq![plain_line(LineKind::Meta, status_line)];
    let noted = match attachments {
        Some(summary) => head.push(plain_line(LineKind::Meta, summary)),
        None => head,
    };
    if tools.len() == 0 {
        noted.push(plain_line(LineKind::Meta, "tools: none"@))
    } else {
        noted.push(plain_line(LineKind::Meta, "tools ("@ + decimal(tools.len()) + "):"@))
            + tools.map_values(|t: ToolView| tool_row(t))
    }
}

fn tool_line(tool: &FrontendToolListing) -> (result: TranscriptLine)
    ensures
        result.deep_view() == tool_row(tool.deep_view()),
{
    let mut row = strs::cat3("  ", tool.name.as_str(), " [");
    row.push_str(effect_class_label(tool.effect_class.as_str()).as_str());
    row.push_str("]");
    line(LineKind::Meta, row.as_str())
}

pub fn status_lines(
    status_line: &str,
    attachment_summary: &Option<String>,
    status: &FrontendStatus,
) -> (lines: Vec<TranscriptLine>)
    ensures
        lines.deep_view() == status_listing(
            status_line@,
            attachment_summary.deep_view(),
            status.tools.deep_view(),
        ),
{
    let ghost tools = status.tools.deep_view();
    let mut lines: Vec<TranscriptLine> = Vec::new();
    lines.push(line(LineKind::Meta, status_line));
    if let Some(summary) = attachment_summary {
        lines.push(line(LineKind::Meta, summary.as_str()));
    }
    let ghost noted = lines.deep_view();
    if status.tools.len() == 0 {
        lines.push(line(LineKind::Meta, "tools: none"));
        proof {
            assert(lines.deep_view() =~= status_listing(
                status_line@,
                attachment_summary.deep_view(),
                tools,
            ));
        }
        return lines;
    }
    let mut count = strs::cat("tools (", strs::number(status.tools.len() as u64).as_str());
    count.push_str("):");
    lines.push(line(LineKind::Meta, count.as_str()));
    let ghost head = lines.deep_view();
    let ghost start = lines@.len() as int;
    let mut i: usize = 0;
    while i < status.tools.len()
        invariant
            i <= status.tools.len(),
            tools == status.tools.deep_view(),
            lines.len() == start + i,
            head.len() == start,
            forall|k: int| 0 <= k < start ==> (#[trigger] lines@[k]).deep_view() == head[k],
            forall|k: int|
                start <= k < start + i ==> (#[trigger] lines@[k]).deep_view() == tool_row(
                    tools[k - start],
                ),
        decreases status.tools.len() - i,
    {
        lines.push(tool_line(&status.tools[i]));
        i += 1;
    }
    proof {
        assert(lines.deep_view() =~= head + tools.map_values(|t: ToolView| tool_row(t)));
        assert(lines.deep_view() =~= status_listing(
            status_line@,
            attachment_summary.deep_view(),
            tools,
        ));
    }
    lines
}

/// A configuration listing shows every entry once, in order, under its heading:
/// its key, `=`, its value and its layer; the equals signs stand in one column
/// as far as the keys are no longer than the column, and no key of ASCII
/// characters is.
pub proof fn entries_are_listed_in_order(entries: Seq<ConfigView>, i: int)
    requires
        0 <= i < entries.len(),
        encode_utf8(entries[i].key).len() <= usize::MAX,
    ensures
        config_listing(entries).len() == entries.len() + 1,
        config_listing(entries)[i + 1].kind == LineKind::Meta,
        config_listing(entries)[i + 1].text == "  "@ + left_aligned(
            entries[i].key,
            key_len(entries),
        ) + " = "@ + entries[i].value + "  ["@ + entries[i].source + "]"@,
        key_len(entries) >= encode_utf8(entries[i].key).len(),
{
    longest_key(entries, i);
}

proof fn longest_key(entries: Seq<ConfigView>, i: int)
    requires
        0 <= i < entries.len(),
        encode_utf8(entries[i].key).len() <= usize::MAX,
    ensures
        key_len(entries) >= encode_utf8(entries[i].key).len(),
    decreases entries.len(),
{
    if i < entries.len() - 1 {
        assert(entries.drop_last()[i] == entries[i]);
        longest_key(entries.drop_last(), i);
    }
}

/// The column of a configuration listing is no wider than its longest key asks.
pub proof fn the_column_fits_a_key(entries: Seq<ConfigView>)
    requires
        entries.len() > 0,
    ensures
        exists|i: int|
            0 <= i < entries.len() && key_len(entries) == encode_utf8(
                (#[trigger] entries[i]).key,
            ).len() as usize,
    decreases entries.len(),
{
    let before = entries.drop_last();
    let last = entries[entries.len() - 1];
    assert(last == entries.last());
    if key_len(entries) != encode_utf8(last.key).len() as usize {
        if before.len() > 0 {
            the_column_fits_a_key(before);
            let i = choose|i: int|
                0 <= i < before.len() && key_len(before) == encode_utf8(
                    (#[trigger] before[i]).key,
                ).len() as usize;
            assert(entries[i] == before[i]);
        } else {
            assert(key_len(before) == 0);
        }
    }
}

/// A status listing ends in one row for each tool, in order, under a row that
/// tells their number; a tool that only reads is told apart from the others.
pub proof fn tools_are_listed_in_order(
    status_line: Seq<char>,
    attachments: Option<Seq<char>>,
    tools: Seq<ToolView>,
    i: int,
)
    requires
        0 <= i < tools.len(),
    ensures
        ({
            let lines = status_listing(status_line, attachments, tools);
            let head = if attachments is Some {
                2int
            } else {
                1int
            };
            &&& lines.len() == head + 1 + tools.len()
            &&& lines[0] == plain_line(LineKind::Meta, status_line)
            &&& attachments is Some ==> lines[1].text == attachments.unwrap()
            &&& lines[head].text == "tools ("@ + decimal(tools.len()) + "):"@
            &&& lines[head + 1 + i].text == "  "@ + tools[i].name + " ["@ + (if
                tools[i].effect_class == "read_only"@ || tools[i].effect_class == "ReadOnly"@ {
                "read-only"@
            } else {
                tools[i].effect_class
            }) + "]"@
        }),
{
}

} // verus!
