//! Strings as sequences of characters: building, splitting and trimming.

use vstd::prelude::*;

verus! {

// ---------------------------------------------------------------------------
// Building strings
// ---------------------------------------------------------------------------

/// `String::push` appends one character.
pub assume_specification[ std::string::String::push ](s: &mut std::string::String, ch: char)
    ensures
        final(s)@ == old(s)@.push(ch),
;

/// `String::push_str` appends a whole string slice.
pub assume_specification[ std::string::String::push_str ](s: &mut std::string::String, string: &str)
    ensures
        final(s)@ == old(s)@ + string@,
;

/// All the parts, one after the other.
pub open spec fn concat(parts: Seq<Seq<char>>) -> Seq<char>
    decreases parts.len(),
{
    if parts.len() == 0 {
        Seq::empty()
    } else {
        concat(parts.drop_last()) + parts.last()
    }
}

/// The parts with `glue` between each two neighbours.
pub open spec fn join(parts: Seq<Seq<char>>, glue: Seq<char>) -> Seq<char>
    decreases parts.len(),
{
    if parts.len() == 0 {
        Seq::empty()
    } else if parts.len() == 1 {
        parts[0]
    } else {
        join(parts.drop_last(), glue) + glue + parts.last()
    }
}

/// `count` copies of one character.
pub open spec fn repeated(c: char, count: nat) -> Seq<char> {
    Seq::new(count, |i: int| c)
}

pub fn joined(parts: &Vec<String>, glue: &str) -> (text: String)
    ensures
        text@ == join(parts.deep_view(), glue@),
{
    let mut text = String::new();
    let mut i: usize = 0;
    while i < parts.len()
        invariant
            i <= parts.len(),
            text@ == join(parts.deep_view().take(i as int), glue@),
        decreases parts.len() - i,
    {
        proof {
            let all = parts.deep_view();
            assert(all.take(i as int + 1).drop_last() =~= all.take(i as int));
        }
        if i > 0 {
            text.push_str(glue);
        }
        text.push_str(parts[i].as_str());
        proof {
            let all = parts.deep_view();
            assert(all.take(1)[0] == all[0]);
            if i == 0 {
                assert(text@ =~= all[0]);
            }
        }
        i += 1;
    }
    proof {
        assert(parts.deep_view().take(parts.len() as int) =~= parts.deep_view());
    }
    text
}

/// Appends `count` copies of `c`.
pub fn push_repeated(text: &mut String, c: char, count: usize)
    ensures
        final(text)@ == old(text)@ + repeated(c, count as nat),
{
    let mut i: usize = 0;
    while i < count
        invariant
            i <= count,
            text@ == old(text)@ + repeated(c, i as nat),
        decreases count - i,
    {
        text.push(c);
        i += 1;
        proof {
            assert(text@ =~= old(text)@ + repeated(c, i as nat));
        }
    }
    proof {
        assert(text@ =~= old(text)@ + repeated(c, count as nat));
    }
}

/// `count` copies of `c` as a string of their own.
pub fn repeat_char(c: char, count: usize) -> (text: String)
    ensures
        text@ == repeated(c, count as nat),
{
    let mut text = String::new();
    push_repeated(&mut text, c, count);
    proof {
        assert(text@ =~= repeated(c, count as nat));
    }
    text
}

/// Two strings, one after the other.
pub fn cat(a: &str, b: &str) -> (text: String)
    ensures
        text@ == a@ + b@,
{
    let mut text = a.to_owned();
    text.push_str(b);
    text
}

/// Three strings, one after the other.
pub fn cat3(a: &str, b: &str, c: &str) -> (text: String)
    ensures
        text@ == a@ + b@ + c@,
{
    let mut text = cat(a, b);
    text.push_str(c);
    text
}

pub fn clone_strings(items: &Vec<String>) -> (copy: Vec<String>)
    ensures
        copy.deep_view() == items.deep_view(),
{
    let mut copy: Vec<String> = Vec::new();
    let mut i: usize = 0;
    while i < items.len()
        invariant
            i <= items.len(),
            copy.deep_view() == items.deep_view().take(i as int),
        decreases items.len() - i,
    {
        let ghost earlier = copy.deep_view();
        let item = items[i].clone();
        copy.push(item);
        proof {
            assert(copy.deep_view() =~= earlier.push(item@));
            assert(items.deep_view().take(i as int + 1) =~= earlier.push(items@[i as int]@));
        }
        i += 1;
    }
    proof {
        assert(copy.deep_view() =~= items.deep_view());
    }
    copy
}

/// A copy of an optional string.
pub fn clone_opt(item: &Option<String>) -> (copy: Option<String>)
    ensures
        copy.deep_view() == item.deep_view(),
{
    match item {
        Some(text) => Some(text.clone()),
        None => None,
    }
}

// ---------------------------------------------------------------------------
// Reading characters
// ---------------------------------------------------------------------------

/// The characters of a string.
pub fn chars_of(text: &str) -> (chars: Vec<char>)
    ensures
        chars@ == text@,
{
    let mut chars: Vec<char> = Vec::new();
    for c in it: text.chars()
        invariant
            it.seq() == text@,
            chars@ == text@.take(it.index() as int),
    {
        chars.push(c);
        proof {
            assert(chars@ =~= text@.take(it.index() as int + 1));
        }
    }
    proof {
        assert(chars@ =~= text@);
    }
    chars
}

/// The characters `from..to` as a string.
pub fn string_of(chars: &Vec<char>, from: usize, to: usize) -> (text: String)
    requires
        from <= to <= chars.len(),
    ensures
        text@ == chars@.subrange(from as int, to as int),
{
    let mut text = String::new();
    let mut i: usize = from;
    while i < to
        invariant
            from <= i <= to <= chars.len(),
            text@ == chars@.subrange(from as int, i as int),
        decreases to - i,
    {
        text.push(chars[i]);
        i += 1;
        proof {
            assert(text@ =~= chars@.subrange(from as int, i as int));
        }
    }
    text
}

/// Whether two strings hold the same characters.
pub fn same(a: &str, b: &str) -> (equal: bool)
    ensures
        equal == (a@ == b@),
{
    let left = chars_of(a);
    let right = chars_of(b);
    if left.len() != right.len() {
        return false;
    }
    let mut i: usize = 0;
    while i < left.len()
        invariant
            i <= left.len(),
            left.len() == right.len(),
            left@ == a@,
            right@ == b@,
            forall|k: int| 0 <= k < i ==> left@[k] == right@[k],
        decreases left.len() - i,
    {
        if left[i] != right[i] {
            return false;
        }
        i += 1;
    }
    proof {
        assert(a@ =~= b@);
    }
    true
}

/// Whether `text` begins with `head`.
pub open spec fn begins(text: Seq<char>, head: Seq<char>) -> bool {
    head.len() <= text.len() && text.take(head.len() as int) == head
}

pub fn starts_with(text: &str, head: &str) -> (yes: bool)
    ensures
        yes == begins(text@, head@),
{
    let all = chars_of(text);
    let wanted = chars_of(head);
    if wanted.len() > all.len() {
        return false;
    }
    let mut i: usize = 0;
    while i < wanted.len()
        invariant
            i <= wanted.len() <= all.len(),
            all@ == text@,
            wanted@ == head@,
            forall|k: int| 0 <= k < i ==> all@[k] == wanted@[k],
        decreases wanted.len() - i,
    {
        if all[i] != wanted[i] {
            proof {
                assert(text@.take(head@.len() as int)[i as int] != head@[i as int]);
            }
            return false;
        }
        i += 1;
    }
    proof {
        assert(text@.take(head@.len() as int) =~= head@);
    }
    true
}

/// What follows `head`, where `text` begins with it.
pub fn strip_prefix(text: &str, head: &str) -> (rest: Option<String>)
    ensures
        rest.deep_view() == (if begins(text@, head@) {
            Some(text@.skip(head@.len() as int))
        } else {
            None
        }),
{
    if !starts_with(text, head) {
        return None;
    }
    let all = chars_of(text);
    let wanted = chars_of(head);
    let rest = string_of(&all, wanted.len(), all.len());
    proof {
        assert(rest@ =~= text@.skip(head@.len() as int));
    }
    Some(rest)
}

/// Whether `part` occurs in `text`.
pub open spec fn occurs(text: Seq<char>, part: Seq<char>) -> bool {
    exists|at: int| #[trigger] occurs_at(text, part, at)
}

/// Whether `part` stands in `text` from character `at` on.
pub open spec fn occurs_at(text: Seq<char>, part: Seq<char>, at: int) -> bool {
    0 <= at <= text.len() - part.len() && text.subrange(at, at + part.len()) == part
}

/// Where `part` first occurs in `text` at or after `from`.
pub fn find(text: &Vec<char>, part: &Vec<char>, from: usize) -> (at: Option<usize>)
    ensures
        match at {
            Some(k) => from <= k && occurs_at(text@, part@, k as int) && forall|j: int|
                from <= j < k ==> !#[trigger] occurs_at(text@, part@, j),
            None => forall|j: int| from <= j ==> !#[trigger] occurs_at(text@, part@, j),
        },
{
    let mut k: usize = from;
    while k <= text.len() && part.len() <= text.len() - k
        invariant
            from <= k,
            forall|j: int| from <= j < k ==> !#[trigger] occurs_at(text@, part@, j),
        decreases text.len() + 1 - k,
    {
        let mut i: usize = 0;
        while i < part.len() && text[k + i] == part[i]
            invariant
                i <= part.len() <= text.len() - k,
                k <= text.len(),
                forall|j: int| 0 <= j < i ==> text@[k + j] == part@[j],
            decreases part.len() - i,
        {
            i += 1;
        }
        if i == part.len() {
            proof {
                assert(text@.subrange(k as int, k + part@.len()) =~= part@);
                assert(occurs_at(text@, part@, k as int));
            }
            return Some(k);
        }
        proof {
            assert(text@.subrange(k as int, k + part@.len())[i as int] != part@[i as int]);
            assert(!occurs_at(text@, part@, k as int));
        }
        if k == usize::MAX {
            return None;
        }
        k += 1;
    }
    None
}

/// Whether `part` occurs anywhere in `text`.
pub fn contains(text: &str, part: &str) -> (yes: bool)
    ensures
        yes == occurs(text@, part@),
{
    let found = find(&chars_of(text), &chars_of(part), 0);
    proof {
        match found {
            Some(k) => { assert(occurs_at(text@, part@, k as int)); },
            None => {},
        }
    }
    found.is_some()
}

// ---------------------------------------------------------------------------
// Splitting
// ---------------------------------------------------------------------------

/// The pieces of `text` between occurrences of `mark`; never empty.
pub open spec fn split_on(text: Seq<char>, mark: char) -> Seq<Seq<char>>
    decreases text.len(),
{
    if text.len() == 0 {
        seq![Seq::empty()]
    } else {
        let before = split_on(text.drop_last(), mark);
        if text.last() == mark {
            before.push(Seq::empty())
        } else {
            before.drop_last().push(before.last().push(text.last()))
        }
    }
}

pub proof fn split_on_nonempty(text: Seq<char>, mark: char)
    ensures
        split_on(text, mark).len() >= 1,
    decreases text.len(),
{
    if text.len() > 0 {
        split_on_nonempty(text.drop_last(), mark);
    }
}

pub fn split(text: &str, mark: char) -> (parts: Vec<String>)
    ensures
        parts.deep_view() == split_on(text@, mark),
        parts.len() >= 1,
{
    let chars = chars_of(text);
    let mut parts: Vec<String> = Vec::new();
    let mut piece = String::new();
    let mut i: usize = 0;
    proof {
        assert(parts.deep_view().push(piece@) =~= split_on(chars@.take(0), mark));
    }
    while i < chars.len()
        invariant
            i <= chars.len(),
            chars@ == text@,
            parts.deep_view().push(piece@) == split_on(chars@.take(i as int), mark),
        decreases chars.len() - i,
    {
        let ghost before = parts.deep_view().push(piece@);
        proof {
            assert(chars@.take(i as int + 1).drop_last() =~= chars@.take(i as int));
            assert(before.last() == piece@);
            assert(before.drop_last() =~= parts.deep_view());
        }
        if chars[i] == mark {
            let ghost done = piece@;
            let ghost earlier = parts.deep_view();
            parts.push(piece);
            piece = String::new();
            proof {
                assert(parts.deep_view() =~= earlier.push(done));
            }
        } else {
            piece.push(chars[i]);
        }
        i += 1;
        proof {
            assert(parts.deep_view().push(piece@) =~= split_on(chars@.take(i as int), mark));
        }
    }
    let ghost earlier = parts.deep_view();
    let ghost done = piece@;
    parts.push(piece);
    proof {
        assert(chars@.take(i as int) =~= text@);
        assert(parts.deep_view() =~= earlier.push(done));
    }
    parts
}

/// The text without one trailing carriage return.
pub open spec fn unreturned(text: Seq<char>) -> Seq<char> {
    if text.len() > 0 && text.last() == '\r' {
        text.drop_last()
    } else {
        text
    }
}

/// The lines of a text: split at line feeds, each with the carriage return
/// before its line feed dropped; a final line feed ends the last line.
pub open spec fn lines_of(text: Seq<char>) -> Seq<Seq<char>> {
    let parts = split_on(text, '\n');
    let count = if parts.last().len() == 0 {
        (parts.len() - 1) as nat
    } else {
        parts.len()
    };
    Seq::new(
        count,
        |i: int|
            if i < parts.len() - 1 {
                unreturned(parts[i])
            } else {
                parts[i]
            },
    )
}

pub fn lines(text: &str) -> (result: Vec<String>)
    ensures
        result.deep_view() == lines_of(text@),
{
    let parts = split(text, '\n');
    let ghost all = parts.deep_view();
    let mut count: usize = parts.len();
    assert(all.last() == parts@[parts@.len() - 1]@);
    if parts[count - 1].as_str().is_empty() {
        count -= 1;
    }
    let ghost expected = lines_of(text@);
    let mut result: Vec<String> = Vec::new();
    let mut i: usize = 0;
    while i < count
        invariant
            i <= count <= parts.len(),
            all == parts.deep_view(),
            all == split_on(text@, '\n'),
            expected == lines_of(text@),
            expected.len() == count,
            result.len() == i,
            forall|k: int| 0 <= k < i ==> (#[trigger] result@[k])@ == expected[k],
        decreases count - i,
    {
        assert(all[i as int] == parts@[i as int]@);
        let chars = chars_of(parts[i].as_str());
        let cut = i < parts.len() - 1 && chars.len() > 0 && chars[chars.len() - 1] == '\r';
        let line = if cut {
            string_of(&chars, 0, chars.len() - 1)
        } else {
            parts[i].clone()
        };
        proof {
            if cut {
                assert(line@ =~= all[i as int].drop_last());
            }
            assert(line@ == expected[i as int]);
        }
        result.push(line);
        i += 1;
    }
    proof {
        assert(result.deep_view() =~= expected);
    }
    result
}

/// Joining what was split with the same mark gives the text back.
pub proof fn join_inverts_split(text: Seq<char>, mark: char)
    ensures
        join(split_on(text, mark), seq![mark]) == text,
    decreases text.len(),
{
    if text.len() == 0 {
        assert(split_on(text, mark).len() == 1);
        assert(join(split_on(text, mark), seq![mark]) =~= text);
    } else {
        let before = split_on(text.drop_last(), mark);
        split_on_nonempty(text.drop_last(), mark);
        join_inverts_split(text.drop_last(), mark);
        let all = split_on(text, mark);
        if text.last() == mark {
            assert(all.drop_last() =~= before);
            assert(join(all, seq![mark]) =~= text.drop_last() + seq![mark] + Seq::<char>::empty());
            assert(join(all, seq![mark]) =~= text);
        } else {
            assert(all.drop_last() =~= before.drop_last());
            if before.len() == 1 {
                assert(all.len() == 1);
                assert(join(all, seq![mark]) =~= before[0].push(text.last()));
            } else {
                assert(join(all, seq![mark]) =~= join(before, seq![mark]).push(text.last()));
            }
            assert(text.drop_last().push(text.last()) =~= text);
        }
    }
}

// ---------------------------------------------------------------------------
// Character classes
// ---------------------------------------------------------------------------

/// The characters with the Unicode `White_Space` property.
pub open spec fn is_white(c: char) -> bool {
    let n = c as u32;
    ||| 0x9 <= n <= 0xd
    ||| n == 0x20
    ||| n == 0x85
    ||| n == 0xa0
    ||| n == 0x1680
    ||| 0x2000 <= n <= 0x200a
    ||| n == 0x2028
    ||| n == 0x2029
    ||| n == 0x202f
    ||| n == 0x205f
    ||| n == 0x3000
}

pub fn white(c: char) -> (yes: bool)
    ensures
        yes == is_white(c),
{
    let n: u32 = c as u32;
    (0x9 <= n && n <= 0xd) || n == 0x20 || n == 0x85 || n == 0xa0 || n == 0x1680 || (0x2000 <= n
        && n <= 0x200a) || n == 0x2028 || n == 0x2029 || n == 0x202f || n == 0x205f || n == 0x3000
}

/// The control characters: Unicode category `Cc`.
pub open spec fn is_control(c: char) -> bool {
    let n = c as u32;
    n <= 0x1f || 0x7f <= n <= 0x9f
}

pub fn control(c: char) -> (yes: bool)
    ensures
        yes == is_control(c),
{
    let n: u32 = c as u32;
    n <= 0x1f || (0x7f <= n && n <= 0x9f)
}

/// How many leading characters are white space.
pub open spec fn leading_white(text: Seq<char>) -> nat
    decreases text.len(),
{
    if text.len() == 0 || !is_white(text[0]) {
        0
    } else {
        1 + leading_white(text.skip(1))
    }
}

/// The text without its leading white space.
pub open spec fn trim_start(text: Seq<char>) -> Seq<char> {
    text.skip(leading_white(text) as int)
}

/// The text without its trailing white space.
pub open spec fn trim_end(text: Seq<char>) -> Seq<char>
    decreases text.len(),
{
    if text.len() == 0 || !is_white(text.last()) {
        text
    } else {
        trim_end(text.drop_last())
    }
}

/// The text without white space at either end.
pub open spec fn trim(text: Seq<char>) -> Seq<char> {
    trim_end(trim_start(text))
}

/// The index of the first character that is not white space.
pub fn skip_white(chars: &Vec<char>) -> (at: usize)
    ensures
        at == leading_white(chars@),
        at <= chars.len(),
{
    let mut i: usize = 0;
    proof {
        assert(chars@.skip(0) =~= chars@);
    }
    while i < chars.len() && white(chars[i])
        invariant
            i <= chars.len(),
            leading_white(chars@) == i + leading_white(chars@.skip(i as int)),
        decreases chars.len() - i,
    {
        proof {
            assert(chars@.skip(i as int).skip(1) =~= chars@.skip(i as int + 1));
        }
        i += 1;
    }
    i
}

pub fn trimmed(text: &str) -> (result: String)
    ensures
        result@ == trim(text@),
{
    let chars = chars_of(text);
    let from = skip_white(&chars);
    let mut to: usize = chars.len();
    proof {
        assert(chars@.subrange(from as int, to as int) =~= trim_start(text@));
    }
    while from < to && white(chars[to - 1])
        invariant
            from <= to <= chars.len(),
            trim_end(chars@.subrange(from as int, to as int)) == trim(text@),
        decreases to,
    {
        proof {
            assert(chars@.subrange(from as int, to as int).drop_last() =~= chars@.subrange(
                from as int,
                to - 1,
            ));
        }
        to -= 1;
    }
    string_of(&chars, from, to)
}

pub fn trimmed_end(text: &str) -> (result: String)
    ensures
        result@ == trim_end(text@),
{
    let chars = chars_of(text);
    let mut to: usize = chars.len();
    proof {
        assert(chars@.take(to as int) =~= text@);
    }
    while 0 < to && white(chars[to - 1])
        invariant
            to <= chars.len(),
            trim_end(chars@.take(to as int)) == trim_end(text@),
        decreases to,
    {
        proof {
            assert(chars@.take(to as int).drop_last() =~= chars@.take(to - 1));
        }
        to -= 1;
    }
    let result = string_of(&chars, 0, to);
    proof {
        assert(result@ =~= chars@.take(to as int));
    }
    result
}

/// ASCII letters in lower case, every other character unchanged.
pub open spec fn ascii_lower(c: char) -> char {
    if 'A' <= c <= 'Z' {
        ((c as u8) + 32) as u8 as char
    } else {
        c
    }
}

pub fn lower(c: char) -> (result: char)
    ensures
        result == ascii_lower(c),
{
    if 'A' <= c && c <= 'Z' {
        (c as u8 + 32) as char
    } else {
        c
    }
}

/// The text with its ASCII letters in lower case.
pub open spec fn lower_text(text: Seq<char>) -> Seq<char> {
    Seq::new(text.len(), |i: int| ascii_lower(text[i]))
}

pub fn lowercased(text: &str) -> (result: String)
    ensures
        result@ == lower_text(text@),
{
    let chars = chars_of(text);
    let mut result = String::new();
    let mut i: usize = 0;
    while i < chars.len()
        invariant
            i <= chars.len(),
            chars@ == text@,
            result@ == lower_text(text@).take(i as int),
        decreases chars.len() - i,
    {
        result.push(lower(chars[i]));
        i += 1;
        proof {
            assert(result@ =~= lower_text(text@).take(i as int));
        }
    }
    proof {
        assert(result@ =~= lower_text(text@));
    }
    result
}

/// The Unicode lower-case form of a text.
pub uninterp spec fn lowercase_of(text: Seq<char>) -> Seq<char>;

/// The Unicode upper-case form of a text.
pub uninterp spec fn uppercase_of(text: Seq<char>) -> Seq<char>;

/// `str::to_lowercase`: the result is a function of the text.
#[verifier::external_body]
pub(crate) fn to_lowercase(text: &str) -> (result: String)
    ensures
        result@ == lowercase_of(text@),
{
    text.to_lowercase()
}

/// `str::to_uppercase`: the result is a function of the text.
#[verifier::external_body]
pub(crate) fn to_uppercase(text: &str) -> (result: String)
    ensures
        result@ == uppercase_of(text@),
{
    text.to_uppercase()
}

// ---------------------------------------------------------------------------
// Numbers
// ---------------------------------------------------------------------------

/// The character of one decimal digit.
pub open spec fn digit(n: nat) -> char {
    (48 + n % 10) as u8 as char
}

/// The decimal numeral of `n`, without leading zeros.
pub open spec fn decimal(n: nat) -> Seq<char>
    decreases n,
{
    if n < 10 {
        seq![digit(n)]
    } else {
        decimal(n / 10).push(digit(n % 10))
    }
}

/// The numeral of `n` with zeros in front up to `len` digits.
pub open spec fn zero_padded(n: nat, len: nat) -> Seq<char> {
    let numeral = decimal(n);
    if numeral.len() >= len {
        numeral
    } else {
        repeated('0', (len - numeral.len()) as nat) + numeral
    }
}

pub fn numeral(n: u128) -> (text: String)
    ensures
        text@ == decimal(n as nat),
    decreases n,
{
    let last: char = (48 + (n % 10) as u8) as char;
    if n < 10 {
        let mut text = String::new();
        text.push(last);
        proof {
            assert(text@ =~= decimal(n as nat));
        }
        text
    } else {
        let mut text = numeral(n / 10);
        text.push(last);
        text
    }
}

pub fn number(n: u64) -> (text: String)
    ensures
        text@ == decimal(n as nat),
{
    numeral(n as u128)
}

pub fn padded_number(n: u64, len: usize) -> (text: String)
    ensures
        text@ == zero_padded(n as nat, len as nat),
{
    let numeral = number(n);
    let digits = chars_of(numeral.as_str()).len();
    if digits >= len {
        return numeral;
    }
    let mut text = repeat_char('0', len - digits);
    text.push_str(numeral.as_str());
    text
}

/// Whether a character is a decimal digit.
pub open spec fn is_digit(c: char) -> bool {
    '0' <= c <= '9'
}

/// The number that a run of decimal digits stands for.
pub open spec fn numeral_value(digits: Seq<char>) -> int
    decreases digits.len(),
{
    if digits.len() == 0 {
        0
    } else {
        10 * numeral_value(digits.drop_last()) + (digits.last() as int - '0' as int)
    }
}

/// A numeral consists of digits, begins with no needless zero, and stands for the
/// number that it was made of.
pub proof fn numerals_read_back(n: nat)
    ensures
        decimal(n).len() > 0,
        forall|i: int| 0 <= i < decimal(n).len() ==> is_digit(#[trigger] decimal(n)[i]),
        decimal(n).len() > 1 ==> decimal(n)[0] != '0',
        numeral_value(decimal(n)) == n,
    decreases n,
{
    if n < 10 {
        reveal_with_fuel(numeral_value, 2);
        assert(decimal(n).drop_last() =~= Seq::<char>::empty());
    } else {
        numerals_read_back(n / 10);
        assert(decimal(n).drop_last() =~= decimal(n / 10));
        assert(decimal(n)[0] == decimal(n / 10)[0]);
        if n / 10 < 10 {
            assert(decimal(n / 10)[0] != '0');
        } else {
            numerals_read_back(n / 10 / 10);
        }
    }
}

proof fn zeros_add_nothing(count: nat, digits: Seq<char>)
    ensures
        numeral_value(repeated('0', count) + digits) == numeral_value(digits),
    decreases digits.len(), count,
{
    let all = repeated('0', count) + digits;
    if digits.len() > 0 {
        zeros_add_nothing(count, digits.drop_last());
        assert(all.drop_last() =~= repeated('0', count) + digits.drop_last());
    } else if count > 0 {
        zeros_add_nothing((count - 1) as nat, digits);
        assert(all.drop_last() =~= repeated('0', (count - 1) as nat) + digits);
    } else {
        assert(all =~= digits);
    }
}

/// A padded numeral has at least the given length and still stands for its
/// number.
pub proof fn padded_numerals_read_back(n: nat, len: nat)
    ensures
        zero_padded(n, len).len() >= len,
        forall|i: int| 0 <= i < zero_padded(n, len).len() ==> is_digit(
            #[trigger] zero_padded(n, len)[i],
        ),
        numeral_value(zero_padded(n, len)) == n,
        decimal(n).len() >= len ==> zero_padded(n, len) == decimal(n),
{
    numerals_read_back(n);
    if decimal(n).len() < len {
        zeros_add_nothing((len - decimal(n).len()) as nat, decimal(n));
    }
}

proof fn trailing_white_goes(text: Seq<char>)
    ensures
        trim_end(text).len() <= text.len(),
        trim_end(text) =~= text.take(trim_end(text).len() as int),
        forall|i: int| trim_end(text).len() <= i < text.len() ==> is_white(#[trigger] text[i]),
        trim_end(text).len() > 0 ==> !is_white(trim_end(text).last()),
    decreases text.len(),
{
    if text.len() > 0 && is_white(text.last()) {
        trailing_white_goes(text.drop_last());
        let n = trim_end(text).len();
        assert forall|i: int| n <= i < text.len() implies is_white(#[trigger] text[i]) by {
            if i < text.len() - 1 {
                assert(text.drop_last()[i] == text[i]);
            }
        }
    }
}

/// The leading white space of a text is white, and what follows it is not.
pub proof fn leading_white_goes(text: Seq<char>)
    ensures
        leading_white(text) <= text.len(),
        forall|i: int| 0 <= i < leading_white(text) ==> is_white(#[trigger] text[i]),
        leading_white(text) < text.len() ==> !is_white(text[leading_white(text) as int]),
    decreases text.len(),
{
    if text.len() > 0 && is_white(text[0]) {
        leading_white_goes(text.skip(1));
        assert forall|i: int| 0 <= i < leading_white(text) implies is_white(#[trigger] text[i]) by {
            if i > 0 {
                assert(text.skip(1)[i - 1] == text[i]);
            }
        }
    }
}

/// Trimming strips white space from both ends and nothing else: a core between
/// white ends that itself neither begins nor ends in white space is what is left.
pub proof fn trimming_leaves_the_core(before: Seq<char>, core: Seq<char>, after: Seq<char>)
    requires
        forall|i: int| 0 <= i < before.len() ==> is_white(#[trigger] before[i]),
        forall|i: int| 0 <= i < after.len() ==> is_white(#[trigger] after[i]),
        core.len() > 0 ==> !is_white(core[0]) && !is_white(core.last()),
    ensures
        trim(before + core + after) == core,
        core.len() > 0 ==> trim_start(before + core + after) == core + after,
        core.len() > 0 ==> trim_end(before + core + after) == before + core,
{
    let text = before + core + after;
    leading_white_goes(text);
    trailing_white_goes(text);
    let led = leading_white(text);
    if core.len() > 0 {
        assert(text[before.len() as int] == core[0]);
        assert(text[before.len() + core.len() - 1] == core.last());
        if led < before.len() {
            assert(text[led as int] == before[led as int]);
        }
        assert(led == before.len());
        assert(trim_start(text) =~= core + after);
        let cut = trim_end(text).len();
        if cut > before.len() + core.len() {
            assert(text[cut - 1] == after[cut - 1 - before.len() - core.len()]);
        }
        assert(cut == before.len() + core.len());
        assert(trim_end(text) =~= before + core);
        let rest = core + after;
        trailing_white_goes(rest);
        let kept = trim_end(rest).len();
        assert(rest[core.len() - 1] == core.last());
        if kept > core.len() {
            assert(rest[kept - 1] == after[kept - 1 - core.len()]);
        }
        assert(trim_end(rest) =~= core);
        assert(trim(text) =~= core);
    } else {
        if led < text.len() {
            if led < before.len() {
                assert(text[led as int] == before[led as int]);
            } else {
                assert(text[led as int] == after[led - before.len()]);
            }
        }
        assert(trim_start(text) =~= Seq::<char>::empty());
        trailing_white_goes(trim_start(text));
        let cut = trim_end(text).len();
        if cut > 0 {
            if cut - 1 < before.len() {
                assert(text[cut - 1] == before[cut - 1]);
            } else {
                assert(text[cut - 1] == after[cut - 1 - before.len()]);
            }
        }
        assert(trim_end(text) =~= Seq::<char>::empty());
        assert(trim(text) =~= core);
    }
}

/// Trimming loses no character that is not white space.
pub proof fn trimming_keeps(text: Seq<char>, c: char)
    requires
        !is_white(c),
    ensures
        trim(text).contains(c) <==> text.contains(c),
{
    leading_white_goes(text);
    let rest = trim_start(text);
    trailing_white_goes(rest);
    let core = trim(text);
    if text.contains(c) {
        let i = choose|i: int| 0 <= i < text.len() && text[i] == c;
        let led = leading_white(text) as int;
        if i < led {
            assert(is_white(text[i]));
        }
        assert(rest[i - led] == c);
        if i - led >= core.len() {
            assert(is_white(rest[i - led]));
        }
        assert(core[i - led] == c);
    }
    if core.contains(c) {
        let i = choose|i: int| 0 <= i < core.len() && core[i] == c;
        assert(rest[i] == c);
        assert(text[i + leading_white(text)] == c);
    }
}

/// No part of a split text holds the mark that it was split at.
pub proof fn pieces_hold_no_mark(text: Seq<char>, mark: char)
    ensures
        forall|i: int|
            0 <= i < split_on(text, mark).len() ==> !(#[trigger] split_on(text, mark)[i]).contains(mark),
    decreases text.len(),
{
    if text.len() > 0 {
        let before = split_on(text.drop_last(), mark);
        split_on_nonempty(text.drop_last(), mark);
        pieces_hold_no_mark(text.drop_last(), mark);
        assert forall|i: int| 0 <= i < split_on(text, mark).len() implies !(#[trigger] split_on(
            text,
            mark,
        )[i]).contains(mark) by {
            let piece = split_on(text, mark)[i];
            if i < before.len() - 1 {
                assert(piece == before[i]);
            } else if text.last() == mark {
                if i < before.len() {
                    assert(piece == before[i]);
                }
            } else {
                assert(piece == before.last().push(text.last()));
                assert(!before[before.len() - 1].contains(mark));
                if piece.contains(mark) {
                    let k = choose|k: int| 0 <= k < piece.len() && piece[k] == mark;
                    assert(before.last()[k] == mark);
                }
            }
        }
    }
}

/// A text that does not hold the mark stays whole.
pub proof fn one_piece(text: Seq<char>, mark: char)
    requires
        !text.contains(mark),
    ensures
        split_on(text, mark) == seq![text],
    decreases text.len(),
{
    if text.len() > 0 {
        let before = text.drop_last();
        assert(text.contains(text.last()));
        assert forall|i: int| 0 <= i < before.len() implies before[i] != mark by {
            assert(text.contains(text[i]));
        }
        one_piece(before, mark);
        assert(before.push(text.last()) =~= text);
    } else {
        assert(text =~= Seq::<char>::empty());
    }
    assert(split_on(text, mark) =~= seq![text]);
}

/// What follows a mark, and holds none, is the last part.
pub proof fn one_more_piece(text: Seq<char>, piece: Seq<char>, mark: char)
    requires
        !piece.contains(mark),
    ensures
        split_on(text + seq![mark] + piece, mark) == split_on(text, mark).push(piece),
    decreases piece.len(),
{
    let all = text + seq![mark] + piece;
    if piece.len() == 0 {
        assert(all.drop_last() =~= text);
        assert(piece =~= Seq::<char>::empty());
    } else {
        let shorter = piece.drop_last();
        assert(piece.contains(piece.last()));
        assert forall|i: int| 0 <= i < shorter.len() implies shorter[i] != mark by {
            assert(piece.contains(piece[i]));
        }
        one_more_piece(text, shorter, mark);
        assert(all.drop_last() =~= text + seq![mark] + shorter);
        assert(shorter.push(piece.last()) =~= piece);
        assert(split_on(all, mark) =~= split_on(text, mark).push(piece));
    }
}

/// Splitting what was joined gives the parts back, where none of them holds the
/// mark.
pub proof fn split_inverts_join(parts: Seq<Seq<char>>, mark: char)
    requires
        parts.len() > 0,
        forall|i: int| 0 <= i < parts.len() ==> !(#[trigger] parts[i]).contains(mark),
    ensures
        split_on(join(parts, seq![mark]), mark) == parts,
    decreases parts.len(),
{
    if parts.len() == 1 {
        one_piece(parts[0], mark);
        assert(seq![parts[0]] =~= parts);
    } else {
        let before = parts.drop_last();
        assert forall|i: int| 0 <= i < before.len() implies !(#[trigger] before[i]).contains(
            mark,
        ) by {
            assert(before[i] == parts[i]);
        }
        split_inverts_join(before, mark);
        one_more_piece(join(before, seq![mark]), parts.last(), mark);
        assert(before.push(parts.last()) =~= parts);
    }
}

/// Lines are read back as they were written: ended by line feeds or joined by
/// them, as long as no line holds one or ends in a carriage return.
pub proof fn lines_read_back(parts: Seq<Seq<char>>)
    requires
        parts.len() > 0,
        forall|i: int| 0 <= i < parts.len() ==> !(#[trigger] parts[i]).contains('\n'),
        forall|i: int|
            0 <= i < parts.len() ==> (#[trigger] parts[i]).len() == 0 || parts[i].last() != '\r',
    ensures
        lines_of(join(parts, seq!['\n']).push('\n')) == parts,
        parts.last().len() > 0 ==> lines_of(join(parts, seq!['\n'])) == parts,
{
    split_inverts_join(parts, '\n');
    let text = join(parts, seq!['\n']);
    assert(text.push('\n').drop_last() =~= text);
    assert(split_on(text.push('\n'), '\n') == parts.push(Seq::empty()));
    assert(lines_of(text.push('\n')) =~= parts);
    if parts.last().len() > 0 {
        assert(lines_of(text) =~= parts);
    }
}

/// Trimming keeps a core that begins and ends in something visible, white space
/// before it goes, and of what follows at most the end goes.
pub proof fn trimming_keeps_the_front(before: Seq<char>, core: Seq<char>, after: Seq<char>)
    requires
        forall|i: int| 0 <= i < before.len() ==> is_white(#[trigger] before[i]),
        core.len() > 0,
        !is_white(core[0]) && !is_white(core.last()),
    ensures
        core.is_prefix_of(trim(before + core + after)),
        trim(before + core + after).is_prefix_of(core + after),
{
    let text = before + core + after;
    leading_white_goes(text);
    let led = leading_white(text);
    assert(text[before.len() as int] == core[0]);
    if led < before.len() {
        assert(text[led as int] == before[led as int]);
    }
    assert(led == before.len());
    let rest = core + after;
    assert(trim_start(text) =~= rest);
    trailing_white_goes(rest);
    let kept = trim_end(rest).len() as int;
    assert(rest[core.len() - 1] == core.last());
    assert(kept >= core.len());
    assert(trim(text) == rest.take(kept));
    assert(core =~= trim(text).take(core.len() as int));
}

/// A joined text may be cut within a part: the parts up to there, joined, and the
/// parts from there on, joined, make the whole.
pub proof fn joining_goes_part_by_part(
    before: Seq<Seq<char>>,
    left: Seq<char>,
    right: Seq<char>,
    after: Seq<Seq<char>>,
    glue: Seq<char>,
)
    ensures
        join(before.push(left + right) + after, glue) == join(before.push(left), glue) + join(
            seq![right] + after,
            glue,
        ),
    decreases after.len(),
{
    let whole = before.push(left + right) + after;
    let tail = seq![right] + after;
    if after.len() == 0 {
        assert(whole =~= before.push(left + right));
        assert(tail =~= seq![right]);
        assert(before.push(left + right).drop_last() =~= before);
        assert(before.push(left).drop_last() =~= before);
        assert(join(whole, glue) =~= join(before.push(left), glue) + right);
    } else {
        let fewer = after.drop_last();
        joining_goes_part_by_part(before, left, right, fewer, glue);
        assert(whole.drop_last() =~= before.push(left + right) + fewer);
        assert(tail.drop_last() =~= seq![right] + fewer);
        assert(join(whole, glue) =~= join(before.push(left), glue) + join(tail, glue));
    }
}

/// Parts joined in two batches need the glue once more between them.
pub proof fn joining_in_two_batches(first: Seq<Seq<char>>, second: Seq<Seq<char>>, glue: Seq<char>)
    requires
        first.len() > 0,
        second.len() > 0,
    ensures
        join(first + second, glue) == join(first, glue) + glue + join(second, glue),
    decreases second.len(),
{
    let whole = first + second;
    if second.len() == 1 {
        assert(whole.drop_last() =~= first);
    } else {
        joining_in_two_batches(first, second.drop_last(), glue);
        assert(whole.drop_last() =~= first + second.drop_last());
        assert(join(whole, glue) =~= join(first, glue) + glue + join(second, glue));
    }
}

} // verus!
