//! Small facts read out of what the service reports.

use vstd::prelude::*;

use super::command::{effort_name, reasoning_name};
use super::frontend::FrontendReasoningEffort;
use crate::strs;
use crate::strs::{is_digit, lower_text, numeral_value, occurs_at, trim};

verus! {

/// The truth value that a word stands for.
pub open spec fn truth_of(value: Seq<char>) -> Option<bool> {
    let word = lower_text(trim(value));
    if word == "true"@ || word == "1"@ || word == "yes"@ || word == "on"@ {
        Some(true)
    } else if word == "false"@ || word == "0"@ || word == "no"@ || word == "off"@ {
        Some(false)
    } else {
        None
    }
}

pub fn parse_bool(value: &str) -> (truth: Option<bool>)
    ensures
        truth == truth_of(value@),
{
    let trimmed = strs::trimmed(value);
    let word = strs::lowercased(trimmed.as_str());
    let word = word.as_str();
    if strs::same(word, "true") || strs::same(word, "1") || strs::same(word, "yes") || strs::same(
        word,
        "on",
    ) {
        Some(true)
    } else if strs::same(word, "false") || strs::same(word, "0") || strs::same(word, "no")
        || strs::same(word, "off") {
        Some(false)
    } else {
        None
    }
}

/// The number that decimal digits write, if they are digits.
pub open spec fn digits_value(digits: Seq<char>) -> Option<nat>
    decreases digits.len(),
{
    if digits.len() == 0 {
        Some(0)
    } else {
        let c = digits.last();
        match digits_value(digits.drop_last()) {
            Some(high) if '0' <= c <= '9' => Some(high * 10 + (c as u32 - '0' as u32) as nat),
            _ => None,
        }
    }
}

/// The digits of a numeral: a plus sign may stand in front.
pub open spec fn unsigned_digits(text: Seq<char>) -> Seq<char> {
    if text.len() > 0 && text[0] == '+' {
        text.skip(1)
    } else {
        text
    }
}

/// The count that a text writes, if it fits.
pub open spec fn count_of(text: Seq<char>) -> Option<u64> {
    let digits = unsigned_digits(text);
    match digits_value(digits) {
        Some(value) if digits.len() > 0 && value <= u64::MAX => Some(value as u64),
        _ => None,
    }
}

/// A prefix that is no numeral, or too large a one, stays so.
proof fn digits_only_grow(digits: Seq<char>, k: int)
    requires
        0 <= k <= digits.len(),
    ensures
        digits_value(digits.take(k)) is None ==> digits_value(digits) is None,
        digits_value(digits.take(k)) is Some && digits_value(digits) is Some
            ==> digits_value(digits.take(k))->0 <= digits_value(digits)->0,
    decreases digits.len() - k,
{
    if k == digits.len() {
        assert(digits.take(k) =~= digits);
    } else {
        digits_only_grow(digits, k + 1);
        assert(digits.take(k + 1).drop_last() =~= digits.take(k));
    }
}

pub fn parse_count(text: &str) -> (count: Option<u64>)
    ensures
        count == count_of(text@),
{
    let chars = strs::chars_of(text);
    let from: usize = if chars.len() > 0 && chars[0] == '+' {
        1
    } else {
        0
    };
    let ghost digits = unsigned_digits(text@);
    proof {
        assert(digits =~= chars@.skip(from as int));
        assert(digits.take(0) =~= Seq::<char>::empty());
    }
    if from == chars.len() {
        return None;
    }
    let mut value: u64 = 0;
    let mut i: usize = from;
    while i < chars.len()
        invariant
            from <= i <= chars.len(),
            from <= 1,
            digits == chars@.skip(from as int),
            digits == unsigned_digits(text@),
            digits.len() > 0,
            digits_value(digits.take(i - from)) == Some(value as nat),
        decreases chars.len() - i,
    {
        let c = chars[i];
        let ghost k = i - from;
        proof {
            assert(digits.take(k + 1).drop_last() =~= digits.take(k));
            assert(digits.take(k + 1).last() == c);
            digits_only_grow(digits, k + 1);
        }
        if c < '0' || c > '9' {
            return None;
        }
        let d: u64 = (c as u32 - '0' as u32) as u64;
        if value > (u64::MAX - d) / 10 {
            return None;
        }
        value = value * 10 + d;
        i += 1;
    }
    proof {
        assert(digits.take(i - from) =~= digits);
    }
    Some(value)
}

// ---------------------------------------------------------------------------
// Compaction messages
// ---------------------------------------------------------------------------

/// Where a part first occurs at or after a place.
pub open spec fn first_occurrence(text: Seq<char>, part: Seq<char>, from: int) -> Option<int>
    decreases text.len() - from + 1,
{
    if from < 0 || from + part.len() > text.len() {
        None
    } else if occurs_at(text, part, from) {
        Some(from)
    } else {
        first_occurrence(text, part, from + 1)
    }
}

proof fn first_occurrence_is(text: Seq<char>, part: Seq<char>, from: int, at: Option<int>)
    requires
        0 <= from,
        match at {
            Some(k) => from <= k && occurs_at(text, part, k) && forall|j: int|
                from <= j < k ==> !#[trigger] occurs_at(text, part, j),
            None => forall|j: int| from <= j ==> !#[trigger] occurs_at(text, part, j),
        },
    ensures
        first_occurrence(text, part, from) == at,
    decreases text.len() - from + 1,
{
    if from + part.len() <= text.len() && !occurs_at(text, part, from) {
        first_occurrence_is(text, part, from + 1, at);
    }
}

/// How many quotes stand in front.
pub open spec fn leading_quotes(text: Seq<char>) -> nat
    decreases text.len(),
{
    if text.len() == 0 || text[0] != '"' {
        0
    } else {
        1 + leading_quotes(text.skip(1))
    }
}

/// The boundary that a compaction message names: behind `covers_up_to:` and its
/// quotes, up to the next quote.
pub open spec fn boundary_in(message: Seq<char>) -> Option<Seq<char>> {
    match first_occurrence(message, "covers_up_to:"@, 0) {
        None => None,
        Some(at) => {
            let rest = trim(message.skip(at + "covers_up_to:"@.len()));
            let inner = rest.skip(leading_quotes(rest) as int);
            match first_occurrence(inner, "\""@, 0) {
                None => None,
                Some(end) => Some(inner.take(end)),
            }
        },
    }
}

pub fn parse_compacted_boundary(message: &str) -> (boundary: Option<String>)
    ensures
        boundary.deep_view() == boundary_in(message@),
{
    let chars = strs::chars_of(message);
    let len = chars.len();
    let key = strs::chars_of("covers_up_to:");
    let at = match strs::find(&chars, &key, 0) {
        Some(at) => {
            proof {
                first_occurrence_is(message@, "covers_up_to:"@, 0, Some(at as int));
            }
            at
        },
        None => {
            proof {
                first_occurrence_is(message@, "covers_up_to:"@, 0, None);
            }
            return None;
        },
    };
    let tail = strs::string_of(&chars, at + key.len(), len);
    assert(tail@ =~= message@.skip(at + "covers_up_to:"@.len()));
    let rest = strs::chars_of(strs::trimmed(tail.as_str()).as_str());
    let mut from: usize = 0;
    proof {
        assert(rest@.skip(0) =~= rest@);
    }
    while from < rest.len() && rest[from] == '"'
        invariant
            from <= rest.len(),
            leading_quotes(rest@) == from + leading_quotes(rest@.skip(from as int)),
        decreases rest.len() - from,
    {
        proof {
            assert(rest@.skip(from as int).skip(1) =~= rest@.skip(from as int + 1));
        }
        from += 1;
    }
    assert(leading_quotes(rest@) == from);
    let inner = strs::string_of(&rest, from, rest.len());
    assert(inner@ =~= rest@.skip(from as int));
    let inside = strs::chars_of(inner.as_str());
    let quote = strs::chars_of("\"");
    match strs::find(&inside, &quote, 0) {
        Some(end) => {
            proof {
                first_occurrence_is(inner@, "\""@, 0, Some(end as int));
            }
            let boundary = strs::string_of(&inside, 0, end);
            assert(boundary@ =~= inner@.take(end as int));
            Some(boundary)
        },
        None => {
            proof {
                first_occurrence_is(inner@, "\""@, 0, None);
            }
            None
        },
    }
}

// ---------------------------------------------------------------------------
// Reasoning effort
// ---------------------------------------------------------------------------

/// The label of a reported effort: a variant's name reads as its level.
pub open spec fn label_for(effort: Seq<char>) -> Seq<char> {
    if effort == "Minimal"@ {
        effort_name(FrontendReasoningEffort::Minimal)
    } else if effort == "Low"@ {
        effort_name(FrontendReasoningEffort::Low)
    } else if effort == "Medium"@ {
        effort_name(FrontendReasoningEffort::Medium)
    } else if effort == "High"@ {
        effort_name(FrontendReasoningEffort::High)
    } else if effort == "Xhigh"@ {
        effort_name(FrontendReasoningEffort::Xhigh)
    } else if effort == "Max"@ {
        effort_name(FrontendReasoningEffort::Max)
    } else {
        effort
    }
}

pub fn effort_label(effort: &str) -> (label: String)
    ensures
        label@ == label_for(effort@),
{
    let level = if strs::same(effort, "Minimal") {
        FrontendReasoningEffort::Minimal
    } else if strs::same(effort, "Low") {
        FrontendReasoningEffort::Low
    } else if strs::same(effort, "Medium") {
        FrontendReasoningEffort::Medium
    } else if strs::same(effort, "High") {
        FrontendReasoningEffort::High
    } else if strs::same(effort, "Xhigh") {
        FrontendReasoningEffort::Xhigh
    } else if strs::same(effort, "Max") {
        FrontendReasoningEffort::Max
    } else {
        return effort.to_owned();
    };
    reasoning_name(level).to_owned()
}

/// Whether an effort is set at all.
pub open spec fn effort_set(effort: Seq<char>) -> bool {
    effort.len() > 0 && effort != "default"@
}

/// The effort as the dashboard shows it: unset or default shows nothing.
pub open spec fn effort_shown(raw: Option<Seq<char>>) -> Option<Seq<char>> {
    match raw {
        Some(effort) if effort_set(trim(effort)) => Some(label_for(trim(effort))),
        _ => None,
    }
}

pub fn is_effort_set(effort: &str) -> (yes: bool)
    ensures
        yes == effort_set(effort@),
{
    !effort.is_empty() && !strs::same(effort, "default")
}

pub fn effort_value(raw: &Option<String>) -> (value: Option<String>)
    ensures
        value.deep_view() == effort_shown(raw.deep_view()),
{
    match raw {
        Some(raw) => {
            let effort = strs::trimmed(raw.as_str());
            if is_effort_set(effort.as_str()) {
                Some(effort_label(effort.as_str()))
            } else {
                None
            }
        },
        None => None,
    }
}

proof fn digits_have_their_value(digits: Seq<char>)
    ensures
        digits_value(digits) is Some <==> forall|i: int|
            0 <= i < digits.len() ==> is_digit(#[trigger] digits[i]),
        digits_value(digits) is Some ==> digits_value(digits).unwrap() == numeral_value(digits),
    decreases digits.len(),
{
    if digits.len() > 0 {
        let high = digits.drop_last();
        digits_have_their_value(high);
        if forall|i: int| 0 <= i < digits.len() ==> is_digit(#[trigger] digits[i]) {
            assert forall|i: int| 0 <= i < high.len() implies is_digit(#[trigger] high[i]) by {
                assert(high[i] == digits[i]);
            }
            assert(is_digit(digits[digits.len() - 1]));
        }
        if digits_value(digits) is Some {
            assert forall|i: int| 0 <= i < digits.len() implies is_digit(#[trigger] digits[i]) by {
                if i < high.len() {
                    assert(high[i] == digits[i]);
                }
            }
        }
    }
}

/// A count is read from a run of digits that a plus sign may precede, at its
/// decimal value; nothing is read from an empty text, from one with another
/// character in it or from a value that is too large.
pub proof fn counts_are_read_from_digits(digits: Seq<char>)
    requires
        digits.len() > 0 ==> digits[0] != '+',
    ensures
        digits.len() > 0 && (forall|i: int|
            0 <= i < digits.len() ==> is_digit(#[trigger] digits[i])) && numeral_value(digits)
            <= u64::MAX ==> count_of(digits) == Some(numeral_value(digits) as u64) && count_of(
            seq!['+'] + digits,
        ) == Some(numeral_value(digits) as u64),
        digits.len() == 0 || numeral_value(digits) > u64::MAX || (exists|i: int|
            0 <= i < digits.len() && !is_digit(#[trigger] digits[i])) ==> count_of(digits) is None
            && count_of(seq!['+'] + digits) is None,
{
    digits_have_their_value(digits);
    assert((seq!['+'] + digits).skip(1) =~= digits);
}

/// The boundary is what a message names between quotes behind `covers_up_to:`.
pub proof fn boundaries_are_quoted(
    message: Seq<char>,
    before: Seq<char>,
    id: Seq<char>,
    after: Seq<char>,
)
    requires
        id.len() > 0,
        !id.contains('"'),
        message == before + "covers_up_to:"@ + (seq![' ', '"'] + id + seq!['"'] + after),
        forall|k: int|
            0 <= k < before.len() ==> !#[trigger] occurs_at(message, "covers_up_to:"@, k),
    ensures
        boundary_in(message) == Some(id),
{
    let name = "covers_up_to:"@;
    let behind = seq![' ', '"'] + id + seq!['"'] + after;
    let at = before.len() as int;
    assert(message.subrange(at, at + name.len()) =~= name);
    assert(occurs_at(message, name, at));
    first_occurrence_is(message, name, 0, Some(at));
    assert(message.skip(at + name.len()) =~= behind);
    strs::trimming_keeps_the_front(seq![' '], seq!['"'] + id + seq!['"'], after);
    assert(seq![' '] + (seq!['"'] + id + seq!['"']) + after =~= behind);
    let rest = trim(behind);
    let front = seq!['"'] + id + seq!['"'];
    assert(front.is_prefix_of(rest));
    assert forall|k: int| 0 <= k < front.len() implies rest[k] == front[k] by {}
    assert(rest[0] == '"');
    assert(rest[1] == front[1] && front[1] == id[0]);
    assert(id.contains(id[0]));
    assert(rest.skip(1)[0] == id[0]);
    assert(leading_quotes(rest.skip(1)) == 0);
    assert(leading_quotes(rest) == 1);
    let inner = rest.skip(1);
    reveal_strlit("\"");
    let end = id.len() as int;
    assert(inner[end] == '"');
    assert(inner.subrange(end, end + 1) =~= "\""@);
    assert(occurs_at(inner, "\""@, end));
    assert forall|j: int| 0 <= j < end implies !occurs_at(inner, "\""@, j) by {
        assert(inner[j] == front[j + 1] && front[j + 1] == id[j]);
        assert(id.contains(id[j]));
        if occurs_at(inner, "\""@, j) {
            assert(inner.subrange(j, j + 1)[0] == "\""@[0]);
        }
    }
    first_occurrence_is(inner, "\""@, 0, Some(end));
    assert(inner.take(end) =~= id);
}

/// A message that does not name `covers_up_to:` names no boundary.
pub proof fn other_messages_name_no_boundary(message: Seq<char>)
    requires
        forall|k: int| !#[trigger] occurs_at(message, "covers_up_to:"@, k),
    ensures
        boundary_in(message) is None,
{
    nowhere(message, "covers_up_to:"@, 0);
}

proof fn nowhere(text: Seq<char>, part: Seq<char>, from: int)
    requires
        forall|k: int| !#[trigger] occurs_at(text, part, k),
    ensures
        first_occurrence(text, part, from) is None,
    decreases text.len() - from + 1,
{
    if 0 <= from && from + part.len() <= text.len() {
        assert(!occurs_at(text, part, from));
        nowhere(text, part, from + 1);
    }
}

} // verus!
