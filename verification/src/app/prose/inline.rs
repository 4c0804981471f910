//! Inline markdown of one logical prose line as semantic spans.

use pulldown_cmark::{Event, Options, Parser, Tag, TagEnd};
use vstd::prelude::*;

use super::style::{
    in_color, plain_style, span, spans_text, ProseColor, ProseSpan, ProseStyle, SpanView,
};
use crate::strs;
use crate::strs::{
    decimal, is_digit, is_white, numeral_value, occurs, repeated, trim_end,
};

verus! {

// ---------------------------------------------------------------------------
// Markdown events
// ---------------------------------------------------------------------------

/// What a markdown element is, as far as one line of prose cares.
#[derive(Clone, Copy, Debug, PartialEq, Eq)]
pub enum ProseTag {
    Heading(u8),
    List(Option<u64>),
    Item,
    BlockQuote,
    Emphasis,
    Strong,
    Strikethrough,
    Link,
    CodeBlock,
    Other,
}

/// One step of a markdown parse.
#[derive(Clone, Debug, PartialEq, Eq)]
pub enum ProseEvent {
    Open(ProseTag),
    Close(ProseTag),
    Code(String),
    Text(String),
    SoftBreak,
    HardBreak,
    Rule,
    TaskMarker(bool),
    Other,
}

/// A [`ProseEvent`] as a mathematical value.
pub enum EventView {
    Open(ProseTag),
    Close(ProseTag),
    Code(Seq<char>),
    Text(Seq<char>),
    SoftBreak,
    HardBreak,
    Rule,
    TaskMarker(bool),
    Other,
}

impl DeepView for ProseEvent {
    type V = EventView;

    open spec fn deep_view(&self) -> EventView {
        match self {
            ProseEvent::Open(tag) => EventView::Open(*tag),
            ProseEvent::Close(tag) => EventView::Close(*tag),
            ProseEvent::Code(text) => EventView::Code(text@),
            ProseEvent::Text(text) => EventView::Text(text@),
            ProseEvent::SoftBreak => EventView::SoftBreak,
            ProseEvent::HardBreak => EventView::HardBreak,
            ProseEvent::Rule => EventView::Rule,
            ProseEvent::TaskMarker(checked) => EventView::TaskMarker(*checked),
            ProseEvent::Other => EventView::Other,
        }
    }
}

/// The markdown parser's event.
#[verifier::external_type_specification]
#[verifier::external_body]
pub struct ExEvent<'a>(pulldown_cmark::Event<'a>);

/// The markdown parser's opening tag.
#[verifier::external_type_specification]
#[verifier::external_body]
pub struct ExTag<'a>(pulldown_cmark::Tag<'a>);

/// The markdown parser's closing tag.
#[verifier::external_type_specification]
#[verifier::external_body]
pub struct ExTagEnd(pulldown_cmark::TagEnd);

/// The events of a text read as markdown, with strikethrough and with task lists
/// where they are asked for.
pub uninterp spec fn markdown_events(
    text: Seq<char>,
    strikethrough: bool,
    tasklists: bool,
) -> Seq<EventView>;

/// Converts one opening tag of `pulldown_cmark`, variant by variant.
#[verifier::external_body]
fn opened(tag: Tag<'_>) -> ProseTag {
    match tag {
        Tag::Heading { level, .. } => ProseTag::Heading(level as u8),
        Tag::List(start) => ProseTag::List(start),
        Tag::Item => ProseTag::Item,
        Tag::BlockQuote(_) => ProseTag::BlockQuote,
        Tag::Emphasis => ProseTag::Emphasis,
        Tag::Strong => ProseTag::Strong,
        Tag::Strikethrough => ProseTag::Strikethrough,
        Tag::Link { .. } => ProseTag::Link,
        Tag::CodeBlock(_) => ProseTag::CodeBlock,
        _ => ProseTag::Other,
    }
}

/// Converts one closing tag of `pulldown_cmark`, variant by variant.
#[verifier::external_body]
fn closed(tag: TagEnd) -> ProseTag {
    match tag {
        TagEnd::Heading(level) => ProseTag::Heading(level as u8),
        TagEnd::List(_) => ProseTag::List(None),
        TagEnd::Item => ProseTag::Item,
        TagEnd::BlockQuote(_) => ProseTag::BlockQuote,
        TagEnd::Emphasis => ProseTag::Emphasis,
        TagEnd::Strong => ProseTag::Strong,
        TagEnd::Strikethrough => ProseTag::Strikethrough,
        TagEnd::Link => ProseTag::Link,
        TagEnd::CodeBlock => ProseTag::CodeBlock,
        _ => ProseTag::Other,
    }
}

/// Converts one event of `pulldown_cmark`, variant by variant.
#[verifier::external_body]
fn event_of(event: Event<'_>) -> ProseEvent {
    match event {
        Event::Start(tag) => ProseEvent::Open(opened(tag)),
        Event::End(tag) => ProseEvent::Close(closed(tag)),
        Event::Code(text) => ProseEvent::Code(text.to_string()),
        Event::Text(text) => ProseEvent::Text(text.to_string()),
        Event::SoftBreak => ProseEvent::SoftBreak,
        Event::HardBreak => ProseEvent::HardBreak,
        Event::Rule => ProseEvent::Rule,
        Event::TaskListMarker(checked) => ProseEvent::TaskMarker(checked),
        _ => ProseEvent::Other,
    }
}

/// `pulldown_cmark::Parser::new_ext` run to its end: the events are a function of
/// the text and of which of the two extensions are enabled.
#[verifier::external_body]
fn markdown(text: &str, strikethrough: bool, tasklists: bool) -> (events: Vec<ProseEvent>)
    ensures
        events.deep_view() == markdown_events(text@, strikethrough, tasklists),
{
    let mut options = Options::empty();
    options.set(Options::ENABLE_STRIKETHROUGH, strikethrough);
    options.set(Options::ENABLE_TASKLISTS, tasklists);
    Parser::new_ext(text, options).map(event_of).collect()
}

// ---------------------------------------------------------------------------
// Bare-path detection
// ---------------------------------------------------------------------------

/// Punctuation that may stand around a path without belonging to it.
pub open spec fn is_mark(c: char) -> bool {
    ||| c == '.'
    ||| c == '('
    ||| c == ')'
    ||| c == '['
    ||| c == ']'
    ||| c == ','
    ||| c == ';'
    ||| c == ':'
    ||| c == '"'
    ||| c == '\''
    ||| c == '`'
    ||| c == '，'
    ||| c == '。'
    ||| c == '、'
    ||| c == '；'
    ||| c == '：'
    ||| c == '（'
    ||| c == '）'
    ||| c == '」'
    ||| c == '』'
    ||| c == '『'
    ||| c == '「'
}

fn mark(c: char) -> (yes: bool)
    ensures
        yes == is_mark(c),
{
    c == '.' || c == '(' || c == ')' || c == '[' || c == ']' || c == ',' || c == ';' || c == ':'
        || c == '"' || c == '\'' || c == '`' || c == '，' || c == '。' || c == '、' || c == '；'
        || c == '：' || c == '（' || c == '）' || c == '」' || c == '』' || c == '『' || c == '「'
}

/// The text without punctuation at its beginning.
pub open spec fn trim_marks_start(text: Seq<char>) -> Seq<char>
    decreases text.len(),
{
    if text.len() == 0 || !is_mark(text[0]) {
        text
    } else {
        trim_marks_start(text.skip(1))
    }
}

/// The text without punctuation at its end.
pub open spec fn trim_marks_end(text: Seq<char>) -> Seq<char>
    decreases text.len(),
{
    if text.len() == 0 || !is_mark(text.last()) {
        text
    } else {
        trim_marks_end(text.drop_last())
    }
}

/// The characters a file extension is made of.
pub open spec fn is_extension_char(c: char) -> bool {
    ('a' <= c <= 'z') || ('A' <= c <= 'Z') || ('0' <= c <= '9') || c == '_' || c == '-'
}

/// Whether the text ends in a dot and a nonempty run of extension characters.
pub open spec fn has_extension(text: Seq<char>) -> bool
    decreases text.len(),
{
    text.len() > 1 && is_extension_char(text.last()) && (text[text.len() - 2] == '.'
        || has_extension(text.drop_last()))
}

/// Whether a token names a file: no URL, but a path separator and a file
/// extension at the end, punctuation around it aside.
pub open spec fn path_like(token: Seq<char>) -> bool {
    let core = trim_marks_end(trim_marks_start(token));
    &&& !occurs(token, "://"@)
    &&& core.contains('/') || core.contains('\\')
    &&& has_extension(core)
}

/// Narrow path probe: a contiguous token carrying `/` or `\` and ending in a
/// file-like extension. URLs and plain words are rejected.
pub fn is_path_like(token: &str) -> (yes: bool)
    ensures
        yes == path_like(token@),
{
    if strs::contains(token, "://") {
        return false;
    }
    let chars = strs::chars_of(token);
    let mut from: usize = 0;
    proof {
        assert(chars@.skip(0) =~= chars@);
    }
    while from < chars.len() && mark(chars[from])
        invariant
            from <= chars.len(),
            trim_marks_start(chars@) == trim_marks_start(chars@.skip(from as int)),
        decreases chars.len() - from,
    {
        proof {
            assert(chars@.skip(from as int).skip(1) =~= chars@.skip(from as int + 1));
        }
        from += 1;
    }
    let mut to: usize = chars.len();
    proof {
        assert(chars@.subrange(from as int, to as int) =~= chars@.skip(from as int));
    }
    while from < to && mark(chars[to - 1])
        invariant
            from <= to <= chars.len(),
            trim_marks_end(trim_marks_start(chars@)) == trim_marks_end(
                chars@.subrange(from as int, to as int),
            ),
        decreases to,
    {
        proof {
            assert(chars@.subrange(from as int, to as int).drop_last() =~= chars@.subrange(
                from as int,
                to - 1,
            ));
        }
        to -= 1;
    }
    let ghost core = chars@.subrange(from as int, to as int);
    assert(core == trim_marks_end(trim_marks_start(token@)));
    let mut separated = false;
    let mut i: usize = from;
    while i < to
        invariant
            from <= i <= to <= chars.len(),
            core == chars@.subrange(from as int, to as int),
            separated == exists|k: int|
                from <= k < i && (#[trigger] chars@[k] == '/' || chars@[k] == '\\'),
        decreases to - i,
    {
        if chars[i] == '/' || chars[i] == '\\' {
            separated = true;
        }
        i += 1;
    }
    proof {
        if separated {
            let k = choose|k: int|
                from <= k < to && (#[trigger] chars@[k] == '/' || chars@[k] == '\\');
            assert(core[k - from] == chars@[k]);
            assert(core.contains(chars@[k]));
        } else {
            assert forall|k: int| 0 <= k < core.len() implies core[k] != '/' && core[k]
                != '\\' by {
                assert(core[k] == chars@[k + from]);
            }
        }
    }
    if !separated {
        return false;
    }
    let mut end: usize = to;
    while end > from
        invariant
            from <= end <= to <= chars.len(),
            core == chars@.subrange(from as int, to as int),
            core == trim_marks_end(trim_marks_start(token@)),
            !occurs(token@, "://"@),
            core.contains('/') || core.contains('\\'),
            has_extension(core) == has_extension(chars@.subrange(from as int, end as int)),
        decreases end,
    {
        let ghost part = chars@.subrange(from as int, end as int);
        let c = chars[end - 1];
        proof {
            assert(part.last() == c);
            assert(part.drop_last() =~= chars@.subrange(from as int, end - 1));
        }
        let extension = ('a' <= c && c <= 'z') || ('A' <= c && c <= 'Z') || ('0' <= c && c <= '9')
            || c == '_' || c == '-';
        if end - from < 2 || !extension {
            return false;
        }
        if chars[end - 2] == '.' {
            proof {
                assert(part[part.len() - 2] == '.');
            }
            return true;
        }
        proof {
            assert(part[part.len() - 2] != '.');
        }
        end -= 1;
    }
    false
}

// ---------------------------------------------------------------------------
// Coloring text
// ---------------------------------------------------------------------------

/// The words of a text, each with the white-space character that ends it.
pub open spec fn words(text: Seq<char>) -> Seq<Seq<char>>
    decreases text.len(),
{
    if text.len() == 0 {
        Seq::empty()
    } else {
        let before = words(text.drop_last());
        if before.len() == 0 || (before.last().len() > 0 && is_white(before.last().last())) {
            before.push(seq![text.last()])
        } else {
            before.drop_last().push(before.last().push(text.last()))
        }
    }
}

fn split_words(text: &str) -> (parts: Vec<String>)
    ensures
        parts.deep_view() == words(text@),
{
    let chars = strs::chars_of(text);
    let mut parts: Vec<String> = Vec::new();
    let mut piece = String::new();
    let mut open = false;
    let mut i: usize = 0;
    proof {
        assert(parts.deep_view() =~= words(chars@.take(0)));
    }
    while i < chars.len()
        invariant
            i <= chars.len(),
            chars@ == text@,
            !open ==> piece@.len() == 0 && parts.deep_view() == words(chars@.take(i as int)),
            !open && parts.deep_view().len() > 0 ==> parts.deep_view().last().len() > 0 && is_white(
                parts.deep_view().last().last(),
            ),
            open ==> piece@.len() > 0 && !is_white(piece@.last()) && parts.deep_view().push(piece@)
                == words(chars@.take(i as int)),
        decreases chars.len() - i,
    {
        let c = chars[i];
        let ghost before = words(chars@.take(i as int));
        let ghost done = parts.deep_view();
        let ghost part = piece@;
        proof {
            assert(chars@.take(i as int + 1).drop_last() =~= chars@.take(i as int));
            assert(chars@.take(i as int + 1).last() == c);
        }
        piece.push(c);
        proof {
            if open {
                assert(before.last() == part);
                assert(before.drop_last() =~= done);
            } else {
                assert(piece@ =~= seq![c]);
            }
            assert(words(chars@.take(i as int + 1)) =~= done.push(piece@));
        }
        if strs::white(c) {
            let ghost whole = piece@;
            parts.push(piece);
            piece = String::new();
            open = false;
            proof {
                assert(parts.deep_view() =~= done.push(whole));
            }
        } else {
            open = true;
        }
        i += 1;
    }
    if open {
        let ghost done = parts.deep_view();
        let ghost part = piece@;
        parts.push(piece);
        proof {
            assert(parts.deep_view() =~= done.push(part));
        }
    }
    proof {
        assert(chars@.take(i as int) =~= text@);
    }
    parts
}

/// Spans laid out so far and the text not yet laid out.
pub struct PaintView {
    pub out: Seq<SpanView>,
    pub buffer: Seq<char>,
}

/// The pending text as a span of its own, where there is any.
pub open spec fn flushed(state: PaintView, style: ProseStyle) -> Seq<SpanView> {
    if state.buffer.len() == 0 {
        state.out
    } else {
        state.out.push(span(state.buffer, style))
    }
}

pub open spec fn paint(tokens: Seq<Seq<char>>, style: ProseStyle) -> PaintView
    decreases tokens.len(),
{
    if tokens.len() == 0 {
        PaintView { out: Seq::empty(), buffer: Seq::empty() }
    } else {
        let before = paint(tokens.drop_last(), style);
        let token = tokens.last();
        let body = trim_end(token);
        let trailing = token.skip(body.len() as int);
        if path_like(body) {
            let lifted = flushed(before, style).push(
                span(body, ProseStyle { color: ProseColor::Green, ..style }),
            );
            PaintView {
                out: if trailing.len() == 0 {
                    lifted
                } else {
                    lifted.push(span(trailing, style))
                },
                buffer: Seq::empty(),
            }
        } else {
            PaintView { out: before.out, buffer: before.buffer + token }
        }
    }
}

/// A text in `style`, with bare file paths in green; code and links keep their
/// own color throughout.
pub open spec fn colorized(text: Seq<char>, style: ProseStyle) -> Seq<SpanView> {
    if style.color == ProseColor::Link || style.color == ProseColor::Code {
        seq![span(text, style)]
    } else {
        flushed(paint(words(text), style), style)
    }
}

proof fn trim_end_is_prefix(text: Seq<char>)
    ensures
        trim_end(text).len() <= text.len(),
        text.take(trim_end(text).len() as int) == trim_end(text),
    decreases text.len(),
{
    if text.len() == 0 || !is_white(text.last()) {
        assert(text.take(text.len() as int) =~= text);
    } else {
        trim_end_is_prefix(text.drop_last());
        assert(text.take(trim_end(text).len() as int) =~= text.drop_last().take(
            trim_end(text).len() as int,
        ));
    }
}

/// Splits a text into spans, lifting bare file paths to green. Code and link
/// text is left alone; URLs are never flagged.
pub fn colorize(text: &str, style: ProseStyle) -> (spans: Vec<ProseSpan>)
    ensures
        spans.deep_view() == colorized(text@, style),
{
    let mut out: Vec<ProseSpan> = Vec::new();
    if style.color == ProseColor::Link || style.color == ProseColor::Code {
        out.push(ProseSpan::of(text, style));
        proof {
            assert(out.deep_view() =~= seq![span(text@, style)]);
        }
        return out;
    }
    let tokens = split_words(text);
    let ghost all = tokens.deep_view();
    let mut buffer = String::new();
    let mut i: usize = 0;
    proof {
        assert(out.deep_view() =~= paint(all.take(0), style).out);
    }
    while i < tokens.len()
        invariant
            i <= tokens.len(),
            all == tokens.deep_view(),
            out.deep_view() == paint(all.take(i as int), style).out,
            buffer@ == paint(all.take(i as int), style).buffer,
        decreases tokens.len() - i,
    {
        let ghost before = paint(all.take(i as int), style);
        let token = tokens[i].as_str();
        let body = strs::trimmed_end(token);
        proof {
            assert(all.take(i as int + 1).drop_last() =~= all.take(i as int));
            assert(all.take(i as int + 1).last() == token@);
            trim_end_is_prefix(token@);
        }
        if is_path_like(body.as_str()) {
            if !buffer.as_str().is_empty() {
                let ghost text = buffer@;
                out.push(ProseSpan::new(buffer, style));
                proof {
                    assert(out.deep_view() =~= before.out.push(span(text, style)));
                }
            }
            proof {
                assert(out.deep_view() == flushed(before, style));
            }
            buffer = String::new();
            let chars = strs::chars_of(token);
            let cut = strs::chars_of(body.as_str()).len();
            let ghost flat = out.deep_view();
            let green = style.colored(ProseColor::Green);
            let ghost body_text = body@;
            out.push(ProseSpan::new(body, green));
            let ghost lifted = flat.push(span(body_text, green));
            proof {
                assert(out.deep_view() =~= lifted);
            }
            let trailing = strs::string_of(&chars, cut, chars.len());
            proof {
                assert(trailing@ =~= token@.skip(cut as int));
            }
            if !trailing.as_str().is_empty() {
                let ghost rest = trailing@;
                out.push(ProseSpan::new(trailing, style));
                proof {
                    assert(out.deep_view() =~= lifted.push(span(rest, style)));
                }
            }
        } else {
            buffer.push_str(token);
        }
        i += 1;
    }
    proof {
        assert(all.take(i as int) =~= all);
    }
    if !buffer.as_str().is_empty() {
        let ghost earlier = out.deep_view();
        let ghost text = buffer@;
        out.push(ProseSpan::new(buffer, style));
        proof {
            assert(out.deep_view() =~= earlier.push(span(text, style)));
        }
    }
    out
}

// ---------------------------------------------------------------------------
// Baking events into spans
// ---------------------------------------------------------------------------

/// Dim chrome.
pub open spec fn bar_style() -> ProseStyle {
    in_color(ProseColor::Meta)
}

/// Highlight of document skeleton elements.
pub open spec fn accent_style() -> ProseStyle {
    in_color(ProseColor::Accent)
}

/// Table frames and gutters.
pub open spec fn border_style() -> ProseStyle {
    in_color(ProseColor::Border)
}

pub fn bar() -> (style: ProseStyle)
    ensures
        style == bar_style(),
{
    ProseStyle::default().colored(ProseColor::Meta)
}

pub fn accent() -> (style: ProseStyle)
    ensures
        style == accent_style(),
{
    ProseStyle::default().colored(ProseColor::Accent)
}

pub fn border() -> (style: ProseStyle)
    ensures
        style == border_style(),
{
    ProseStyle::default().colored(ProseColor::Border)
}

/// The heading ladder: bold throughout, the first rung accented, the second
/// white, the deeper ones in the primary color.
pub open spec fn heading(level: u8) -> ProseStyle {
    ProseStyle {
        color: if level == 1 {
            ProseColor::Accent
        } else if level == 2 {
            ProseColor::White
        } else {
            ProseColor::Default
        },
        bold: true,
        ..plain_style()
    }
}

pub fn heading_style(level: u8) -> (style: ProseStyle)
    ensures
        style == heading(level),
{
    let base = ProseStyle::default().bold();
    if level == 1 {
        base.colored(ProseColor::Accent)
    } else if level == 2 {
        base.colored(ProseColor::White)
    } else {
        base
    }
}

/// What a parse has produced so far.
pub struct BakeView {
    pub spans: Seq<SpanView>,
    /// The styles of the elements that are open, outermost first.
    pub styles: Seq<ProseStyle>,
    /// The number of the ordered list that is open.
    pub ordered: Option<u64>,
    /// Inside a checked task.
    pub struck: bool,
}

/// The style in effect.
pub open spec fn top_style(styles: Seq<ProseStyle>) -> ProseStyle {
    if styles.len() == 0 {
        plain_style()
    } else {
        styles.last()
    }
}

/// One element less; the base style always stays.
pub open spec fn popped(styles: Seq<ProseStyle>) -> Seq<ProseStyle> {
    if styles.len() > 1 {
        styles.drop_last()
    } else {
        styles
    }
}

pub open spec fn list_marker(ordered: Option<u64>) -> Seq<char> {
    match ordered {
        Some(number) => decimal(number as nat) + ". "@,
        None => "• "@,
    }
}

/// The style of strongly emphasized text: white on a primary host, only bold on
/// a colored one.
pub open spec fn strong(base: ProseStyle) -> ProseStyle {
    ProseStyle {
        bold: true,
        color: if base.color == ProseColor::Default {
            ProseColor::White
        } else {
            base.color
        },
        ..base
    }
}

/// Whether closing the element ends a style that opening it began.
pub open spec fn is_styled(tag: ProseTag) -> bool {
    match tag {
        ProseTag::Heading(_)
        | ProseTag::Emphasis
        | ProseTag::Strong
        | ProseTag::Strikethrough
        | ProseTag::Link
        | ProseTag::CodeBlock => true,
        _ => false,
    }
}

/// The effect of opening an element.
pub open spec fn bake_open(state: BakeView, tag: ProseTag, indent: Seq<char>) -> BakeView {
    let top = top_style(state.styles);
    match tag {
        ProseTag::Heading(level) => BakeView {
            spans: state.spans.push(span("▍ "@, heading(level))),
            styles: state.styles.push(heading(level)),
            ..state
        },
        ProseTag::List(start) => BakeView { ordered: start, ..state },
        ProseTag::Item => BakeView {
            struck: false,
            spans: state.spans.push(
                span(
                    indent + list_marker(state.ordered),
                    ProseStyle { bold: state.ordered is None, ..in_color(ProseColor::Code) },
                ),
            ),
            ..state
        },
        ProseTag::BlockQuote => BakeView {
            spans: state.spans.push(span(indent + "│ "@, in_color(ProseColor::DarkGray))),
            ..state
        },
        ProseTag::Emphasis => BakeView {
            styles: state.styles.push(ProseStyle { italic: true, ..top }),
            ..state
        },
        ProseTag::Strong => BakeView { styles: state.styles.push(strong(top)), ..state },
        ProseTag::Strikethrough => BakeView {
            styles: state.styles.push(ProseStyle { crossed: true, ..top }),
            ..state
        },
        ProseTag::Link => BakeView {
            styles: state.styles.push(
                ProseStyle { color: ProseColor::Link, underline: true, ..top },
            ),
            ..state
        },
        ProseTag::CodeBlock => BakeView {
            styles: state.styles.push(ProseStyle { color: ProseColor::Code, ..top }),
            ..state
        },
        ProseTag::Other => state,
    }
}

/// The effect of one event.
pub open spec fn bake_step(state: BakeView, event: EventView, indent: Seq<char>) -> BakeView {
    match event {
        EventView::Open(tag) => bake_open(state, tag, indent),
        EventView::Close(ProseTag::List(_)) => BakeView { ordered: None, ..state },
        EventView::Close(ProseTag::Item) => if state.struck {
            BakeView { styles: popped(state.styles), struck: false, ..state }
        } else {
            state
        },
        EventView::Close(tag) => if is_styled(tag) {
            BakeView { styles: popped(state.styles), ..state }
        } else {
            state
        },
        EventView::TaskMarker(true) => BakeView {
            spans: state.spans.push(span("[x] "@, accent_style())),
            styles: state.styles.push(ProseStyle { crossed: true, ..in_color(ProseColor::Meta) }),
            struck: true,
            ..state
        },
        EventView::TaskMarker(false) => BakeView {
            spans: state.spans.push(span("[ ] "@, bar_style())),
            ..state
        },
        EventView::Code(code) => BakeView {
            spans: state.spans.push(span(code, in_color(ProseColor::Green))),
            ..state
        },
        EventView::Text(text) => BakeView {
            spans: state.spans + colorized(text, top_style(state.styles)),
            ..state
        },
        EventView::SoftBreak | EventView::HardBreak => BakeView {
            spans: state.spans.push(span(" "@, plain_style())),
            ..state
        },
        EventView::Rule => BakeView {
            spans: state.spans.push(span(repeated('─', 24), in_color(ProseColor::Meta))),
            ..state
        },
        EventView::Other => state,
    }
}

pub open spec fn bake(events: Seq<EventView>, indent: Seq<char>) -> BakeView
    decreases events.len(),
{
    if events.len() == 0 {
        BakeView {
            spans: Seq::empty(),
            styles: seq![plain_style()],
            ordered: None,
            struck: false,
        }
    } else {
        bake_step(bake(events.drop_last(), indent), events.last(), indent)
    }
}

/// The blanks a line begins with.
pub open spec fn indent_of(text: Seq<char>) -> Seq<char>
    decreases text.len(),
{
    if text.len() == 0 || text[0] != ' ' {
        Seq::empty()
    } else {
        seq![' '] + indent_of(text.skip(1))
    }
}

/// The spans of a prose line whose markdown events are given.
pub open spec fn baked_prose(events: Seq<EventView>, text: Seq<char>) -> Seq<SpanView> {
    let spans = bake(events, indent_of(text)).spans;
    if spans.len() == 0 {
        seq![span(text, plain_style())]
    } else {
        spans
    }
}

/// The spans of a prose line.
pub open spec fn prose_spans(text: Seq<char>) -> Seq<SpanView> {
    baked_prose(markdown_events(text, true, true), text)
}

/// The running state of a parse.
struct Baker {
    spans: Vec<ProseSpan>,
    styles: Vec<ProseStyle>,
    ordered: Option<u64>,
    struck: bool,
}

impl Baker {
    spec fn state(&self) -> BakeView {
        BakeView {
            spans: self.spans.deep_view(),
            styles: self.styles@,
            ordered: self.ordered,
            struck: self.struck,
        }
    }

    fn top(&self) -> (style: ProseStyle)
        ensures
            style == top_style(self.styles@),
    {
        if self.styles.len() == 0 {
            ProseStyle::default()
        } else {
            self.styles[self.styles.len() - 1]
        }
    }

    fn pop(&mut self)
        ensures
            final(self).state() == (BakeView {
                styles: popped(old(self).styles@),
                ..old(self).state()
            }),
    {
        if self.styles.len() > 1 {
            let closed = self.styles.pop();
            proof {
                assert(self.styles@ =~= old(self).styles@.drop_last());
            }
        }
    }

    fn push_span(&mut self, item: ProseSpan)
        ensures
            final(self).state() == (BakeView {
                spans: old(self).spans.deep_view().push(item.deep_view()),
                ..old(self).state()
            }),
    {
        self.spans.push(item);
        proof {
            assert(self.spans.deep_view() =~= old(self).spans.deep_view().push(item.deep_view()));
        }
    }

    fn open(&mut self, tag: ProseTag, indent: &str)
        ensures
            final(self).state() == bake_open(old(self).state(), tag, indent@),
    {
        let top = self.top();
        match tag {
            ProseTag::Heading(level) => {
                let style = heading_style(level);
                self.push_span(ProseSpan::of("▍ ", style));
                self.styles.push(style);
            },
            ProseTag::List(start) => {
                self.ordered = start;
            },
            ProseTag::Item => {
                self.struck = false;
                let marker = match self.ordered {
                    Some(number) => strs::cat(strs::number(number).as_str(), ". "),
                    None => "• ".to_owned(),
                };
                let style = ProseStyle::default().colored(ProseColor::Code).bold_if(
                    self.ordered.is_none(),
                );
                self.push_span(ProseSpan::new(strs::cat(indent, marker.as_str()), style));
            },
            ProseTag::BlockQuote => {
                let style = ProseStyle::default().colored(ProseColor::DarkGray);
                self.push_span(ProseSpan::new(strs::cat(indent, "│ "), style));
            },
            ProseTag::Emphasis => {
                self.styles.push(top.italic());
            },
            ProseTag::Strong => {
                let style = if top.color == ProseColor::Default {
                    top.colored(ProseColor::White).bold()
                } else {
                    top.bold()
                };
                self.styles.push(style);
            },
            ProseTag::Strikethrough => {
                self.styles.push(top.crossed());
            },
            ProseTag::Link => {
                self.styles.push(top.colored(ProseColor::Link).underlined());
            },
            ProseTag::CodeBlock => {
                self.styles.push(top.colored(ProseColor::Code));
            },
            ProseTag::Other => {},
        }
    }

    fn step(&mut self, event: &ProseEvent, indent: &str)
        ensures
            final(self).state() == bake_step(old(self).state(), event.deep_view(), indent@),
    {
        match event {
            ProseEvent::Open(tag) => self.open(*tag, indent),
            ProseEvent::Close(ProseTag::List(_)) => {
                self.ordered = None;
            },
            ProseEvent::Close(ProseTag::Item) => {
                if self.struck {
                    self.pop();
                    self.struck = false;
                }
            },
            ProseEvent::Close(tag) => {
                match tag {
                    ProseTag::Heading(_)
                    | ProseTag::Emphasis
                    | ProseTag::Strong
                    | ProseTag::Strikethrough
                    | ProseTag::Link
                    | ProseTag::CodeBlock => self.pop(),
                    _ => {},
                }
            },
            ProseEvent::TaskMarker(checked) => {
                if *checked {
                    self.push_span(ProseSpan::of("[x] ", accent()));
                    self.styles.push(ProseStyle::default().colored(ProseColor::Meta).crossed());
                    self.struck = true;
                } else {
                    self.push_span(ProseSpan::of("[ ] ", bar()));
                }
            },
            ProseEvent::Code(code) => {
                let style = ProseStyle::default().colored(ProseColor::Green);
                self.push_span(ProseSpan::of(code.as_str(), style));
            },
            ProseEvent::Text(text) => {
                let mut colored = colorize(text.as_str(), self.top());
                let ghost added = colored.deep_view();
                self.spans.append(&mut colored);
                proof {
                    assert(self.spans.deep_view() =~= old(self).spans.deep_view() + added);
                }
            },
            ProseEvent::SoftBreak | ProseEvent::HardBreak => self.push_span(ProseSpan::raw(" ")),
            ProseEvent::Rule => {
                let style = ProseStyle::default().colored(ProseColor::Meta);
                self.push_span(ProseSpan::new(strs::repeat_char('─', 24), style));
            },
            ProseEvent::Other => {},
        }
    }
}

/// The blanks `text` begins with.
fn leading_blanks(text: &str) -> (indent: String)
    ensures
        indent@ == indent_of(text@),
{
    let chars = strs::chars_of(text);
    let mut indent = String::new();
    let mut i: usize = 0;
    proof {
        assert(chars@.skip(0) =~= chars@);
        assert(indent@ + indent_of(chars@) =~= indent_of(chars@));
    }
    while i < chars.len() && chars[i] == ' '
        invariant
            i <= chars.len(),
            chars@ == text@,
            indent@ + indent_of(chars@.skip(i as int)) == indent_of(chars@),
        decreases chars.len() - i,
    {
        proof {
            assert(chars@.skip(i as int).skip(1) =~= chars@.skip(i as int + 1));
            assert(indent@.push(' ') + indent_of(chars@.skip(i as int + 1)) =~= indent@ + (seq![' ']
                + indent_of(chars@.skip(i as int + 1))));
        }
        indent.push(' ');
        i += 1;
    }
    proof {
        assert(indent@ + Seq::<char>::empty() =~= indent@);
    }
    indent
}

/// Lays out one logical prose line, its markdown events given.
pub fn bake_prose(events: &Vec<ProseEvent>, text: &str) -> (spans: Vec<ProseSpan>)
    ensures
        spans.deep_view() == baked_prose(events.deep_view(), text@),
{
    let indent = leading_blanks(text);
    let ghost all = events.deep_view();
    let mut styles: Vec<ProseStyle> = Vec::new();
    styles.push(ProseStyle::default());
    let mut baker = Baker { spans: Vec::new(), styles, ordered: None, struck: false };
    let mut i: usize = 0;
    proof {
        assert(baker.spans.deep_view() =~= Seq::<SpanView>::empty());
        assert(baker.styles@ =~= seq![plain_style()]);
    }
    while i < events.len()
        invariant
            i <= events.len(),
            all == events.deep_view(),
            indent@ == indent_of(text@),
            baker.state() == bake(all.take(i as int), indent@),
        decreases events.len() - i,
    {
        proof {
            assert(all.take(i as int + 1).drop_last() =~= all.take(i as int));
            assert(all.take(i as int + 1).last() == all[i as int]);
        }
        baker.step(&events[i], indent.as_str());
        i += 1;
    }
    proof {
        assert(all.take(i as int) =~= all);
    }
    let mut spans = baker.spans;
    if spans.len() == 0 {
        spans.push(ProseSpan::raw(text));
        proof {
            assert(spans.deep_view() =~= seq![span(text@, plain_style())]);
        }
    }
    spans
}

/// Parses one logical prose line into semantic spans.
pub fn parse_prose(text: &str) -> (spans: Vec<ProseSpan>)
    ensures
        spans.deep_view() == prose_spans(text@),
{
    bake_prose(&markdown(text, true, true), text)
}

// ---------------------------------------------------------------------------
// Laws
// ---------------------------------------------------------------------------

/// Whether an event begins or ends a list.
pub open spec fn touches_list(event: EventView) -> bool {
    match event {
        EventView::Open(ProseTag::List(_)) | EventView::Close(ProseTag::List(_)) => true,
        _ => false,
    }
}

/// Whether a text is an indent, the digits of a number, a dot and a blank.
pub open spec fn numbered(text: Seq<char>, indent: Seq<char>, digits: Seq<char>, n: int) -> bool {
    &&& text == indent + digits + seq!['.', ' ']
    &&& digits.len() > 0
    &&& forall|i: int| 0 <= i < digits.len() ==> is_digit(#[trigger] digits[i])
    &&& numeral_value(digits) == n
}

/// Later events only add spans.
proof fn spans_are_only_added(events: Seq<EventView>, more: Seq<EventView>, indent: Seq<char>)
    ensures
        bake(events, indent).spans.len() <= bake(events + more, indent).spans.len(),
        bake(events + more, indent).spans.take(bake(events, indent).spans.len() as int) == bake(
            events,
            indent,
        ).spans,
    decreases more.len(),
{
    let start = bake(events, indent).spans;
    if more.len() == 0 {
        assert(events + more =~= events);
        assert(start.take(start.len() as int) =~= start);
    } else {
        let less = more.drop_last();
        spans_are_only_added(events, less, indent);
        assert((events + more).drop_last() =~= events + less);
        let before = bake(events + less, indent).spans;
        let after = bake(events + more, indent).spans;
        assert(after.take(before.len() as int) =~= before);
        assert(after.take(start.len() as int) =~= before.take(start.len() as int));
    }
}

/// Between the ends of lists the number of the open list stays.
proof fn list_stays_open(events: Seq<EventView>, more: Seq<EventView>, indent: Seq<char>)
    requires
        forall|i: int| 0 <= i < more.len() ==> !touches_list(#[trigger] more[i]),
    ensures
        bake(events + more, indent).ordered == bake(events, indent).ordered,
    decreases more.len(),
{
    if more.len() == 0 {
        assert(events + more =~= events);
    } else {
        let less = more.drop_last();
        assert forall|i: int| 0 <= i < less.len() implies !touches_list(#[trigger] less[i]) by {
            assert(less[i] == more[i]);
        }
        list_stays_open(events, less, indent);
        assert((events + more).drop_last() =~= events + less);
        assert(!touches_list(more[more.len() - 1]));
    }
}

/// What a list that is opened leads to: whatever came before and comes behind, an
/// item of it adds a span, and nothing that is there changes.
proof fn item_adds_its_span(
    before: Seq<EventView>,
    start: Option<u64>,
    between: Seq<EventView>,
    after: Seq<EventView>,
    text: Seq<char>,
) -> (at: int)
    requires
        forall|i: int| 0 <= i < between.len() ==> !touches_list(#[trigger] between[i]),
    ensures
        ({
            let opened = before.push(EventView::Open(ProseTag::List(start))) + between;
            let events = opened.push(EventView::Open(ProseTag::Item)) + after;
            let spans = baked_prose(events, text);
            &&& 0 <= at < spans.len()
            &&& spans[at] == bake_open(
                bake(opened, indent_of(text)),
                ProseTag::Item,
                indent_of(text),
            ).spans.last()
            &&& bake(opened, indent_of(text)).ordered == start
        }),
{
    let indent = indent_of(text);
    let listed = before.push(EventView::Open(ProseTag::List(start)));
    let opened = listed + between;
    let item = opened.push(EventView::Open(ProseTag::Item));
    assert(listed.drop_last() =~= before);
    list_stays_open(listed, between, indent);
    assert(item.drop_last() =~= opened);
    spans_are_only_added(item, after, indent);
    let at = bake(item, indent).spans.len() - 1;
    let spans = bake(item + after, indent).spans;
    assert(spans[at] == spans.take(at + 1)[at]);
    at
}

/// An item of an ordered list shows the number that the list starts at, in
/// digits, behind the indent of the line and before a dot and a blank: whatever
/// events came before, stand between the list and the item, or follow.
pub proof fn ordered_items_show_their_number(
    before: Seq<EventView>,
    n: u64,
    between: Seq<EventView>,
    after: Seq<EventView>,
    text: Seq<char>,
)
    requires
        forall|i: int| 0 <= i < between.len() ==> !touches_list(#[trigger] between[i]),
    ensures
        ({
            let opened = before.push(EventView::Open(ProseTag::List(Some(n)))) + between;
            let events = opened.push(EventView::Open(ProseTag::Item)) + after;
            exists|at: int, digits: Seq<char>|
                0 <= at < baked_prose(events, text).len() && #[trigger] numbered(
                    (#[trigger] baked_prose(events, text)[at]).text,
                    indent_of(text),
                    digits,
                    n as int,
                )
        }),
{
    let opened = before.push(EventView::Open(ProseTag::List(Some(n)))) + between;
    let events = opened.push(EventView::Open(ProseTag::Item)) + after;
    let at = item_adds_its_span(before, Some(n), between, after, text);
    let digits = decimal(n as nat);
    strs::numerals_read_back(n as nat);
    reveal_strlit(". ");
    assert(". "@ =~= seq!['.', ' ']);
    let shown = baked_prose(events, text)[at].text;
    assert(shown =~= indent_of(text) + digits + seq!['.', ' ']);
    assert(numbered(shown, indent_of(text), digits, n as int));
}

/// An item of an unordered list shows a bullet behind the indent of the line.
pub proof fn unordered_items_show_a_bullet(
    before: Seq<EventView>,
    between: Seq<EventView>,
    after: Seq<EventView>,
    text: Seq<char>,
)
    requires
        forall|i: int| 0 <= i < between.len() ==> !touches_list(#[trigger] between[i]),
    ensures
        ({
            let opened = before.push(EventView::Open(ProseTag::List(None))) + between;
            let events = opened.push(EventView::Open(ProseTag::Item)) + after;
            exists|at: int|
                0 <= at < baked_prose(events, text).len() && (#[trigger] baked_prose(
                    events,
                    text,
                )[at]).text == indent_of(text) + seq!['•', ' ']
        }),
{
    let at = item_adds_its_span(before, None, between, after, text);
    reveal_strlit("• ");
    assert("• "@ =~= seq!['•', ' ']);
}

/// The indent of a line is the blanks it begins with, all of them.
pub proof fn indent_is_the_leading_blanks(text: Seq<char>)
    ensures
        indent_of(text).len() <= text.len(),
        text.take(indent_of(text).len() as int) == indent_of(text),
        forall|i: int| 0 <= i < indent_of(text).len() ==> #[trigger] text[i] == ' ',
        indent_of(text).len() < text.len() ==> text[indent_of(text).len() as int] != ' ',
    decreases text.len(),
{
    if text.len() > 0 && text[0] == ' ' {
        let rest = text.skip(1);
        indent_is_the_leading_blanks(rest);
        let n = indent_of(rest).len() as int;
        assert(text.take(n + 1) =~= seq![' '] + rest.take(n));
        assert forall|i: int| 0 <= i < n + 1 implies #[trigger] text[i] == ' ' by {
            if i > 0 {
                assert(rest[i - 1] == ' ');
            }
        }
        if n < rest.len() {
            assert(rest[n] == text[n + 1]);
        }
    } else {
        assert(text.take(0) =~= Seq::<char>::empty());
    }
}

proof fn words_join(text: Seq<char>)
    ensures
        strs::concat(words(text)) == text,
    decreases text.len(),
{
    if text.len() > 0 {
        let before = words(text.drop_last());
        let after = words(text);
        words_join(text.drop_last());
        if before.len() == 0 || (before.last().len() > 0 && is_white(before.last().last())) {
            assert(after.drop_last() =~= before);
            assert(strs::concat(after) == strs::concat(before) + seq![text.last()]);
        } else {
            assert(after.drop_last() =~= before.drop_last());
            assert(strs::concat(after) == strs::concat(before.drop_last()) + before.last().push(
                text.last(),
            ));
            assert(strs::concat(after) =~= strs::concat(before) + seq![text.last()]);
        }
        assert(text.drop_last() + seq![text.last()] =~= text);
    } else {
        assert(strs::concat(words(text)) =~= text);
    }
}

/// Whether a span is in a style, or in green with a path for its text.
pub open spec fn in_style_or_a_path(shown: SpanView, style: ProseStyle) -> bool {
    shown.style == style || (shown.style == (ProseStyle { color: ProseColor::Green, ..style })
        && path_like(shown.text))
}

proof fn painting_keeps_the_text(tokens: Seq<Seq<char>>, style: ProseStyle)
    ensures
        spans_text(flushed(paint(tokens, style), style)) == strs::concat(tokens),
        forall|i: int|
            0 <= i < paint(tokens, style).out.len() ==> in_style_or_a_path(
                #[trigger] paint(tokens, style).out[i],
                style,
            ),
    decreases tokens.len(),
{
    let after = paint(tokens, style);
    if tokens.len() > 0 {
        let before = paint(tokens.drop_last(), style);
        let token = tokens.last();
        let body = trim_end(token);
        let trailing = token.skip(body.len() as int);
        painting_keeps_the_text(tokens.drop_last(), style);
        trim_end_is_prefix(token);
        assert(body + trailing =~= token);
        text_of_flushed(before, style);
        text_of_flushed(after, style);
        if path_like(body) {
            let first = flushed(before, style);
            let green = span(body, ProseStyle { color: ProseColor::Green, ..style });
            let lifted = first.push(green);
            assert(lifted.drop_last() =~= first);
            if trailing.len() > 0 {
                let out = lifted.push(span(trailing, style));
                assert(out.drop_last() =~= lifted);
                assert(spans_text(lifted) == spans_text(first) + body);
                assert(spans_text(out) == spans_text(first) + body + trailing);
                assert(spans_text(out) =~= strs::concat(tokens.drop_last()) + token);
            } else {
                assert(spans_text(lifted) =~= strs::concat(tokens.drop_last()) + token);
            }
        } else {
            assert(spans_text(before.out) + (before.buffer + token) =~= spans_text(before.out)
                + before.buffer + token);
        }
    } else {
        text_of_flushed(after, style);
        assert(spans_text(flushed(after, style)) =~= strs::concat(tokens));
    }
}

proof fn text_of_flushed(state: PaintView, style: ProseStyle)
    ensures
        spans_text(flushed(state, style)) == spans_text(state.out) + state.buffer,
{
    if state.buffer.len() > 0 {
        assert(state.out.push(span(state.buffer, style)).drop_last() =~= state.out);
    } else {
        assert(spans_text(state.out) + state.buffer =~= spans_text(state.out));
    }
}

/// Coloring keeps every character of a text, and keeps its style but for the
/// paths, which turn green and are otherwise as they were.
pub proof fn coloring_keeps_the_text(text: Seq<char>, style: ProseStyle)
    ensures
        spans_text(colorized(text, style)) == text,
        forall|i: int|
            0 <= i < colorized(text, style).len() ==> in_style_or_a_path(
                #[trigger] colorized(text, style)[i],
                style,
            ),
        style.color == ProseColor::Link || style.color == ProseColor::Code ==> forall|i: int|
            0 <= i < colorized(text, style).len() ==> (#[trigger] colorized(
                text,
                style,
            )[i]).style == style,
{
    if style.color == ProseColor::Link || style.color == ProseColor::Code {
        let spans = colorized(text, style);
        assert(spans.drop_last() =~= Seq::<SpanView>::empty());
        reveal_with_fuel(spans_text, 2);
        assert(spans_text(spans) =~= text);
    } else {
        words_join(text);
        painting_keeps_the_text(words(text), style);
    }
}

proof fn a_word_stays_whole(text: Seq<char>)
    requires
        text.len() > 0,
        forall|i: int| 0 <= i < text.len() ==> !is_white(#[trigger] text[i]),
    ensures
        words(text) == seq![text],
    decreases text.len(),
{
    let rest = text.drop_last();
    if rest.len() > 0 {
        assert forall|i: int| 0 <= i < rest.len() implies !is_white(#[trigger] rest[i]) by {
            assert(rest[i] == text[i]);
        }
        a_word_stays_whole(rest);
        assert(!is_white(text[text.len() - 2]));
        assert(words(text) =~= seq![text]) by {
            assert(rest.push(text.last()) =~= text);
        }
    } else {
        assert(words(rest) =~= Seq::<Seq<char>>::empty());
        assert(words(text) =~= seq![text]) by {
            assert(seq![text.last()] =~= text);
        }
    }
}

/// A path that stands alone is green as a whole, and what is no path stays as it
/// is.
pub proof fn paths_turn_green(word: Seq<char>, style: ProseStyle)
    requires
        word.len() > 0,
        forall|i: int| 0 <= i < word.len() ==> !is_white(#[trigger] word[i]),
        style.color != ProseColor::Link,
        style.color != ProseColor::Code,
    ensures
        colorized(word, style).len() == 1,
        colorized(word, style)[0].text == word,
        path_like(word) ==> colorized(word, style)[0].style == (ProseStyle {
            color: ProseColor::Green,
            ..style
        }),
        !path_like(word) ==> colorized(word, style)[0].style == style,
{
    a_word_stays_whole(word);
    assert(!is_white(word[word.len() - 1]));
    assert(trim_end(word) == word);
    reveal_with_fuel(paint, 2);
    assert(words(word).drop_last() =~= Seq::<Seq<char>>::empty());
    assert(word.skip(word.len() as int) =~= Seq::<char>::empty());
    assert(Seq::<char>::empty() + word =~= word);
}

proof fn trimming_takes_a_part(text: Seq<char>)
    ensures
        forall|c: char| trim_marks_start(text).contains(c) ==> #[trigger] text.contains(c),
        forall|c: char| trim_marks_end(text).contains(c) ==> #[trigger] text.contains(c),
    decreases text.len(),
{
    if text.len() > 0 {
        trimming_takes_a_part(text.skip(1));
        trimming_takes_a_part(text.drop_last());
        assert forall|c: char| trim_marks_start(text).contains(c) implies #[trigger] text.contains(
            c,
        ) by {
            if is_mark(text[0]) {
                assert(text.skip(1).contains(c));
                let i = choose|i: int| 0 <= i < text.skip(1).len() && text.skip(1)[i] == c;
                assert(text[i + 1] == c);
            }
        }
        assert forall|c: char| trim_marks_end(text).contains(c) implies #[trigger] text.contains(
            c,
        ) by {
            if is_mark(text.last()) {
                assert(text.drop_last().contains(c));
                let i = choose|i: int| 0 <= i < text.drop_last().len() && text.drop_last()[i] == c;
                assert(text[i] == c);
            }
        }
    }
}

proof fn extensions_follow_a_dot(text: Seq<char>)
    requires
        has_extension(text),
    ensures
        text.contains('.'),
    decreases text.len(),
{
    if text[text.len() - 2] == '.' {
    } else {
        extensions_follow_a_dot(text.drop_last());
        let i = choose|i: int| 0 <= i < text.drop_last().len() && text.drop_last()[i] == '.';
        assert(text[i] == '.');
    }
}

/// A path has a separator and a dot and is no URL.
pub proof fn paths_have_a_separator_and_an_extension(token: Seq<char>)
    requires
        path_like(token),
    ensures
        token.contains('/') || token.contains('\\'),
        token.contains('.'),
        !occurs(token, "://"@),
{
    let start = trim_marks_start(token);
    let core = trim_marks_end(start);
    trimming_takes_a_part(token);
    trimming_takes_a_part(start);
    extensions_follow_a_dot(core);
    assert(start.contains('.'));
    if core.contains('/') {
        assert(start.contains('/'));
    } else {
        assert(start.contains('\\'));
    }
}

proof fn a_dot_and_an_extension(text: Seq<char>, dot: int)
    requires
        0 <= dot < text.len() - 1,
        text[dot] == '.',
        forall|i: int| dot < i < text.len() ==> is_extension_char(#[trigger] text[i]),
    ensures
        has_extension(text),
    decreases text.len(),
{
    assert(is_extension_char(text[text.len() - 1]));
    if dot < text.len() - 2 {
        let rest = text.drop_last();
        assert forall|i: int| dot < i < rest.len() implies is_extension_char(#[trigger] rest[i]) by {
            assert(rest[i] == text[i]);
        }
        a_dot_and_an_extension(rest, dot);
    }
}

/// What has a separator and ends in a dot and an extension is a path, if it holds
/// no colon and begins and ends with no punctuation.
pub proof fn files_are_paths(token: Seq<char>, dot: int)
    requires
        0 <= dot < token.len() - 1,
        token[dot] == '.',
        forall|i: int| dot < i < token.len() ==> is_extension_char(#[trigger] token[i]),
        token.contains('/') || token.contains('\\'),
        !token.contains(':'),
        token[0] == '/' || token[0] == '\\' || is_extension_char(token[0]),
    ensures
        path_like(token),
{
    assert(is_extension_char(token[token.len() - 1]));
    assert(trim_marks_start(token) == token);
    assert(trim_marks_end(token) == token);
    a_dot_and_an_extension(token, dot);
    if occurs(token, "://"@) {
        reveal_strlit("://");
        let at = choose|at: int| #[trigger] strs::occurs_at(token, "://"@, at);
        assert(token.subrange(at, at + 3)[0] == ':');
        assert(token[at] == ':');
    }
}

/// Text and code of the parser are shown to the last character, behind what is
/// there, in the style that is open; code in green.
pub proof fn text_is_shown(state: BakeView, text: Seq<char>, indent: Seq<char>)
    ensures
        spans_text(bake_step(state, EventView::Text(text), indent).spans) == spans_text(state.spans)
            + text,
        spans_text(bake_step(state, EventView::Code(text), indent).spans) == spans_text(state.spans)
            + text,
        bake_step(state, EventView::Code(text), indent).spans.last().style.color
            == ProseColor::Green,
        bake_step(state, EventView::Text(text), indent).styles == state.styles,
        ({
            let shown = bake_step(state, EventView::Text(text), indent).spans;
            forall|i: int|
                state.spans.len() <= i < shown.len() ==> in_style_or_a_path(
                    #[trigger] shown[i],
                    top_style(state.styles),
                )
        }),
{
    let style = top_style(state.styles);
    coloring_keeps_the_text(text, style);
    super::flow::spans_text_add(state.spans, colorized(text, style));
    let coded = bake_step(state, EventView::Code(text), indent).spans;
    assert(coded.drop_last() =~= state.spans);
    let shown = bake_step(state, EventView::Text(text), indent).spans;
    assert forall|i: int| state.spans.len() <= i < shown.len() implies in_style_or_a_path(
        #[trigger] shown[i],
        style,
    ) by {
        assert(shown[i] == colorized(text, style)[i - state.spans.len()]);
    }
}

/// Emphasis of each kind adds its own trait to the style around it, and closing an
/// element gives the style around it back.
pub proof fn emphasis_adds_its_trait(state: BakeView, indent: Seq<char>)
    requires
        state.styles.len() > 0,
    ensures
        ({
            let around = top_style(state.styles);
            let italic = bake_open(state, ProseTag::Emphasis, indent);
            let strong = bake_open(state, ProseTag::Strong, indent);
            let crossed = bake_open(state, ProseTag::Strikethrough, indent);
            let link = bake_open(state, ProseTag::Link, indent);
            &&& top_style(italic.styles) == (ProseStyle { italic: true, ..around })
            &&& top_style(crossed.styles) == (ProseStyle { crossed: true, ..around })
            &&& top_style(strong.styles).bold
            &&& top_style(strong.styles).italic == around.italic
            &&& around.color == ProseColor::Default ==> top_style(strong.styles).color
                == ProseColor::White
            &&& around.color != ProseColor::Default ==> top_style(strong.styles).color
                == around.color
            &&& top_style(link.styles).underline
            &&& top_style(link.styles).color == ProseColor::Link
            &&& italic.spans == state.spans
            &&& strong.spans == state.spans
        }),
        forall|tag: ProseTag|
            is_styled(tag) ==> (#[trigger] bake_step(
                bake_open(state, tag, indent),
                EventView::Close(tag),
                indent,
            )).styles == state.styles,
        is_styled(ProseTag::Emphasis),
        is_styled(ProseTag::Strong),
        is_styled(ProseTag::Strikethrough),
        is_styled(ProseTag::Link),
{
    assert forall|tag: ProseTag| is_styled(tag) implies (#[trigger] bake_step(
        bake_open(state, tag, indent),
        EventView::Close(tag),
        indent,
    )).styles == state.styles by {
        let opened = bake_open(state, tag, indent).styles;
        assert(opened.drop_last() =~= state.styles);
    }
}

/// A heading hangs a mark before its text and sets it in bold: the first level
/// accented, the second white, the others in the primary color.
pub proof fn headings_are_marked(state: BakeView, level: u8, indent: Seq<char>)
    ensures
        ({
            let opened = bake_open(state, ProseTag::Heading(level), indent);
            let style = top_style(opened.styles);
            &&& opened.spans.len() == state.spans.len() + 1
            &&& opened.spans.last().text == seq!['▍', ' ']
            &&& opened.spans.last().style == style
            &&& style.bold
            &&& !style.italic && !style.underline && !style.crossed
            &&& level == 1 ==> style.color == ProseColor::Accent
            &&& level == 2 ==> style.color == ProseColor::White
            &&& level > 2 ==> style.color == ProseColor::Default
        }),
{
    reveal_strlit("▍ ");
    assert("▍ "@ =~= seq!['▍', ' ']);
}

/// A checked task shows its mark and strikes out what follows until its item ends;
/// an open task shows an empty box and strikes nothing.
pub proof fn tasks_show_whether_they_are_done(state: BakeView, indent: Seq<char>)
    requires
        state.styles.len() > 0,
    ensures
        ({
            let done = bake_step(state, EventView::TaskMarker(true), indent);
            let open = bake_step(state, EventView::TaskMarker(false), indent);
            &&& done.spans.last().text == seq!['[', 'x', ']', ' ']
            &&& top_style(done.styles).crossed
            &&& bake_step(done, EventView::Close(ProseTag::Item), indent).styles == state.styles
            &&& open.spans.last().text == seq!['[', ' ', ']', ' ']
            &&& open.styles == state.styles
            &&& done.spans.len() == state.spans.len() + 1
            &&& open.spans.len() == state.spans.len() + 1
        }),
{
    reveal_strlit("[x] ");
    reveal_strlit("[ ] ");
    assert("[x] "@ =~= seq!['[', 'x', ']', ' ']);
    assert("[ ] "@ =~= seq!['[', ' ', ']', ' ']);
    let done = bake_step(state, EventView::TaskMarker(true), indent);
    assert(done.styles.drop_last() =~= state.styles);
}

/// A line that the parser finds nothing in is shown as it is.
pub proof fn bare_lines_are_shown_as_they_are(text: Seq<char>)
    ensures
        baked_prose(Seq::empty(), text) == seq![span(text, plain_style())],
{
}

} // verus!
