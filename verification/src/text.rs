//! Text as sequences of characters: comparison, lines, trimming, pattern
//! search and decimal numbers.
//!
//! A span `(start, end)` names the characters `start..end` of a text.

use vstd::prelude::*;
use vstd::string::*;

verus! {

/// Whether `c` is Unicode white space.
pub open spec fn is_space(c: char) -> bool {
    let u = c as u32;
    ||| 0x09 <= u <= 0x0d
    ||| u == 0x20
    ||| u == 0x85
    ||| u == 0xa0
    ||| u == 0x1680
    ||| 0x2000 <= u <= 0x200a
    ||| u == 0x2028
    ||| u == 0x2029
    ||| u == 0x202f
    ||| u == 0x205f
    ||| u == 0x3000
}

/// Decides [`is_space`].
pub fn is_whitespace(c: char) -> (space: bool)
    ensures
        space == is_space(c),
{
    let u = c as u32;
    (0x09 <= u && u <= 0x0d) || u == 0x20 || u == 0x85 || u == 0xa0 || u == 0x1680 || (0x2000 <= u
        && u <= 0x200a) || u == 0x2028 || u == 0x2029 || u == 0x202f || u == 0x205f || u
        == 0x3000
}

/// The characters of `s`.
pub fn to_chars(s: &str) -> (chars: Vec<char>)
    ensures
        chars@ == s@,
{
    let n = s.unicode_len();
    let mut chars: Vec<char> = Vec::new();
    let mut i: usize = 0;
    while i < n
        invariant
            i <= n,
            n == s@.len(),
            chars@ == s@.subrange(0, i as int),
        decreases n - i,
    {
        chars.push(s.get_char(i));
        i += 1;
        assert(chars@ =~= s@.subrange(0, i as int));
    }
    assert(s@.subrange(0, n as int) =~= s@);
    chars
}

/// The spans of the lines of `s` from `pos` on, appended to `found`, where
/// the current line began at `start`.
///
/// A line ends at a line feed; a carriage return just before that line feed
/// is not part of the line. Text after the last line feed is a line unless
/// it is empty.
pub open spec fn scan_lines(s: Seq<char>, start: int, pos: int, found: Seq<(int, int)>) -> Seq<
    (int, int),
>
    decreases s.len() - pos,
{
    if pos >= s.len() {
        if start < s.len() {
            found.push((start, s.len() as int))
        } else {
            found
        }
    } else if s[pos] == '\n' {
        let end = if pos > start && s[pos - 1] == '\r' {
            pos - 1
        } else {
            pos
        };
        scan_lines(s, pos + 1, pos + 1, found.push((start, end)))
    } else {
        scan_lines(s, start, pos + 1, found)
    }
}

/// The spans of the lines of `s`.
pub open spec fn line_spans(s: Seq<char>) -> Seq<(int, int)> {
    scan_lines(s, 0, 0, Seq::empty())
}

/// The spans `spans` as integers.
pub open spec fn spans_view(spans: Seq<(usize, usize)>) -> Seq<(int, int)> {
    Seq::new(spans.len(), |i: int| (spans[i].0 as int, spans[i].1 as int))
}

/// Whether every span of `spans` lies within a text of `len` characters.
pub open spec fn spans_within(spans: Seq<(int, int)>, len: int) -> bool {
    forall|i: int| 0 <= i < spans.len() ==> 0 <= (#[trigger] spans[i]).0 <= spans[i].1 <= len
}

/// Scanning lines only adds spans that lie within the text.
pub proof fn lemma_scan_lines_within(s: Seq<char>, start: int, pos: int, found: Seq<(int, int)>)
    requires
        0 <= start <= pos <= s.len(),
        spans_within(found, s.len() as int),
    ensures
        spans_within(scan_lines(s, start, pos, found), s.len() as int),
    decreases s.len() - pos,
{
    if pos >= s.len() {
    } else if s[pos] == '\n' {
        let end = if pos > start && s[pos - 1] == '\r' {
            pos - 1
        } else {
            pos
        };
        lemma_scan_lines_within(s, pos + 1, pos + 1, found.push((start, end)));
    } else {
        lemma_scan_lines_within(s, start, pos + 1, found);
    }
}

/// Splits `text` into the spans of its lines.
pub fn split_lines(text: &Vec<char>) -> (spans: Vec<(usize, usize)>)
    ensures
        spans_view(spans@) == line_spans(text@),
        spans_within(spans_view(spans@), text@.len() as int),
{
    let mut spans: Vec<(usize, usize)> = Vec::new();
    let mut start: usize = 0;
    let mut pos: usize = 0;
    assert(spans_view(spans@) =~= Seq::<(int, int)>::empty());
    while pos < text.len()
        invariant
            start <= pos <= text.len(),
            scan_lines(text@, start as int, pos as int, spans_view(spans@)) == line_spans(text@),
        decreases text.len() - pos,
    {
        let ghost before = spans_view(spans@);
        if text[pos] == '\n' {
            let end = if pos > start && text[pos - 1] == '\r' {
                pos - 1
            } else {
                pos
            };
            spans.push((start, end));
            assert(spans_view(spans@) =~= before.push((start as int, end as int)));
            start = pos + 1;
        }
        pos += 1;
    }
    if start < text.len() {
        let ghost before = spans_view(spans@);
        spans.push((start, text.len()));
        assert(spans_view(spans@) =~= before.push((start as int, text.len() as int)));
    }
    proof {
        lemma_scan_lines_within(text@, 0, 0, Seq::empty());
    }
    spans
}

/// The first position in `start..end` that holds no white space, or `end`.
pub open spec fn trim_start_at(s: Seq<char>, start: int, end: int) -> int
    decreases end - start,
{
    if start < end && is_space(s[start]) {
        trim_start_at(s, start + 1, end)
    } else {
        start
    }
}

/// The end of `start..end` once trailing white space is dropped.
pub open spec fn trim_end_at(s: Seq<char>, start: int, end: int) -> int
    decreases end - start,
{
    if start < end && is_space(s[end - 1]) {
        trim_end_at(s, start, end - 1)
    } else {
        end
    }
}

/// The span `start..end` without leading and trailing white space.
pub open spec fn trimmed(s: Seq<char>, start: int, end: int) -> (int, int) {
    let first = trim_start_at(s, start, end);
    (first, trim_end_at(s, first, end))
}

/// Trims the span `start..end` of `text`.
pub fn trim_span(text: &Vec<char>, start: usize, end: usize) -> (span: (usize, usize))
    requires
        start <= end <= text@.len(),
    ensures
        (span.0 as int, span.1 as int) == trimmed(text@, start as int, end as int),
        start <= span.0 <= span.1 <= end,
{
    let mut first = start;
    while first < end && is_whitespace(text[first])
        invariant
            start <= first <= end <= text@.len(),
            trim_start_at(text@, first as int, end as int) == trim_start_at(
                text@,
                start as int,
                end as int,
            ),
        decreases end - first,
    {
        first += 1;
    }
    let mut last = end;
    while first < last && is_whitespace(text[last - 1])
        invariant
            first <= last <= end <= text@.len(),
            trim_end_at(text@, first as int, last as int) == trim_end_at(
                text@,
                first as int,
                end as int,
            ),
        decreases last - first,
    {
        last -= 1;
    }
    (first, last)
}

/// Whether `pattern` stands at position `at` of `s`, within `..end`.
pub open spec fn has_prefix_at(s: Seq<char>, at: int, end: int, pattern: Seq<char>) -> bool {
    &&& 0 <= at
    &&& at + pattern.len() <= end <= s.len()
    &&& s.subrange(at, at + pattern.len()) == pattern
}

/// Decides [`has_prefix_at`].
pub fn starts_with_at(text: &Vec<char>, at: usize, end: usize, pattern: &Vec<char>) -> (found: bool)
    requires
        at <= end <= text@.len(),
    ensures
        found == has_prefix_at(text@, at as int, end as int, pattern@),
{
    if pattern.len() > end - at {
        return false;
    }
    let mut i: usize = 0;
    while i < pattern.len()
        invariant
            i <= pattern.len(),
            at + pattern.len() <= end <= text@.len(),
            forall|k: int| 0 <= k < i ==> text@[at + k] == pattern@[k],
        decreases pattern.len() - i,
    {
        if text[at + i] != pattern[i] {
            assert(text@.subrange(at as int, at + pattern@.len())[i as int] != pattern@[i as int]);
            return false;
        }
        i += 1;
    }
    assert(text@.subrange(at as int, at + pattern@.len()) =~= pattern@);
    true
}

/// The position after every leading repetition of `pattern` in `at..end`.
pub open spec fn skip_repeated(s: Seq<char>, at: int, end: int, pattern: Seq<char>) -> int
    decreases end - at,
{
    if pattern.len() > 0 && has_prefix_at(s, at, end, pattern) {
        skip_repeated(s, at + pattern.len(), end, pattern)
    } else {
        at
    }
}

/// Computes [`skip_repeated`].
pub fn skip_prefixes(text: &Vec<char>, at: usize, end: usize, pattern: &Vec<char>) -> (after: usize)
    requires
        at <= end <= text@.len(),
    ensures
        after == skip_repeated(text@, at as int, end as int, pattern@),
        at <= after <= end,
{
    let mut after = at;
    if pattern.len() == 0 {
        return after;
    }
    while starts_with_at(text, after, end, pattern)
        invariant
            at <= after <= end <= text@.len(),
            pattern@.len() > 0,
            skip_repeated(text@, after as int, end as int, pattern@) == skip_repeated(
                text@,
                at as int,
                end as int,
                pattern@,
            ),
        decreases end - after,
    {
        after += pattern.len();
    }
    after
}

/// The first position in `from..end` where `pattern` stands, or `end` if it
/// stands nowhere.
pub open spec fn first_occurrence(s: Seq<char>, from: int, end: int, pattern: Seq<char>) -> int
    decreases end - from,
{
    if from >= end {
        end
    } else if has_prefix_at(s, from, end, pattern) {
        from
    } else {
        first_occurrence(s, from + 1, end, pattern)
    }
}

/// Computes [`first_occurrence`].
pub fn find(text: &Vec<char>, from: usize, end: usize, pattern: &Vec<char>) -> (at: usize)
    requires
        from <= end <= text@.len(),
    ensures
        at == first_occurrence(text@, from as int, end as int, pattern@),
        from <= at <= end,
{
    let mut at = from;
    while at < end
        invariant
            from <= at <= end <= text@.len(),
            first_occurrence(text@, at as int, end as int, pattern@) == first_occurrence(
                text@,
                from as int,
                end as int,
                pattern@,
            ),
        decreases end - at,
    {
        if starts_with_at(text, at, end, pattern) {
            return at;
        }
        at += 1;
    }
    at
}

/// The start of the last `::` in `pos..end`, reading left to right without
/// overlap, or `last` if there is none.
pub open spec fn last_separator(s: Seq<char>, pos: int, end: int, last: int) -> int
    decreases end - pos,
{
    if pos + 2 > end {
        last
    } else if s[pos] == ':' && s[pos + 1] == ':' {
        last_separator(s, pos + 2, end, pos)
    } else {
        last_separator(s, pos + 1, end, last)
    }
}

/// Finds the start of the last `::` in `start..end`, if there is one.
pub fn find_last_separator(text: &Vec<char>, start: usize, end: usize) -> (found: Option<usize>)
    requires
        start <= end <= text@.len(),
    ensures
        match found {
            Some(at) => at == last_separator(text@, start as int, end as int, -1) && start <= at
                < end,
            None => last_separator(text@, start as int, end as int, -1) == -1,
        },
{
    let mut found: Option<usize> = None;
    let mut pos = start;
    while pos < end && end - pos >= 2
        invariant
            start <= pos <= text@.len(),
            end <= text@.len(),
            found matches Some(at) ==> start <= at < pos && at < end,
            last_separator(
                text@,
                pos as int,
                end as int,
                match found {
                    Some(at) => at as int,
                    None => -1,
                },
            ) == last_separator(text@, start as int, end as int, -1),
        decreases end - pos,
    {
        if text[pos] == ':' && text[pos + 1] == ':' {
            found = Some(pos);
            pos += 2;
        } else {
            pos += 1;
        }
    }
    found
}

/// How many of the characters `start..end` equal `c`.
pub open spec fn count_of(s: Seq<char>, start: int, end: int, c: char) -> int
    decreases end - start,
{
    if start >= end {
        0
    } else {
        count_of(s, start, end - 1, c) + if s[end - 1] == c {
            1int
        } else {
            0int
        }
    }
}

pub proof fn lemma_count_bounds(s: Seq<char>, start: int, end: int, c: char)
    requires
        start <= end,
    ensures
        0 <= count_of(s, start, end, c) <= end - start,
    decreases end - start,
{
    if start < end {
        lemma_count_bounds(s, start, end - 1, c);
    }
}

/// Computes [`count_of`].
pub fn count_char(text: &Vec<char>, start: usize, end: usize, c: char) -> (count: usize)
    requires
        start <= end <= text@.len(),
    ensures
        count == count_of(text@, start as int, end as int, c),
        count <= end - start,
{
    let mut count: usize = 0;
    let mut i = start;
    while i < end
        invariant
            start <= i <= end <= text@.len(),
            count == count_of(text@, start as int, i as int, c),
            count <= i - start,
        decreases end - i,
    {
        if text[i] == c {
            count += 1;
        }
        i += 1;
    }
    count
}

/// The decimal digit `d` as text.
pub open spec fn digit_text(d: nat) -> Seq<char> {
    if d == 0 {
        "0"@
    } else if d == 1 {
        "1"@
    } else if d == 2 {
        "2"@
    } else if d == 3 {
        "3"@
    } else if d == 4 {
        "4"@
    } else if d == 5 {
        "5"@
    } else if d == 6 {
        "6"@
    } else if d == 7 {
        "7"@
    } else if d == 8 {
        "8"@
    } else {
        "9"@
    }
}

/// `n` in decimal, without leading zeros.
pub open spec fn decimal_text(n: nat) -> Seq<char>
    decreases n,
{
    if n < 10 {
        digit_text(n)
    } else {
        decimal_text(n / 10) + digit_text(n % 10)
    }
}

fn digit(d: usize) -> (text: &'static str)
    requires
        d < 10,
    ensures
        text@ == digit_text(d as nat),
{
    if d == 0 {
        "0"
    } else if d == 1 {
        "1"
    } else if d == 2 {
        "2"
    } else if d == 3 {
        "3"
    } else if d == 4 {
        "4"
    } else if d == 5 {
        "5"
    } else if d == 6 {
        "6"
    } else if d == 7 {
        "7"
    } else if d == 8 {
        "8"
    } else {
        "9"
    }
}

/// Formats `n` in decimal.
pub fn decimal(n: usize) -> (text: String)
    ensures
        text@ == decimal_text(n as nat),
    decreases n,
{
    if n < 10 {
        String::from_str(digit(n))
    } else {
        let mut text = decimal(n / 10);
        text.append(digit(n % 10));
        text
    }
}

/// Whether two strings hold the same text.
pub fn same_text(a: &str, b: &str) -> (same: bool)
    ensures
        same == (a@ == b@),
{
    let left = String::from_str(a);
    let right = String::from_str(b);
    left == right
}

/// Whether the optional name `candidate` is `wanted`.
pub fn is_named(candidate: &Option<String>, wanted: &str) -> (same: bool)
    ensures
        same == match candidate {
            Some(name) => name@ == wanted@,
            None => false,
        },
{
    match candidate {
        Some(name) => same_text(name.as_str(), wanted),
        None => false,
    }
}

/// Whether `c` is one of the digits `0` to `9`.
pub open spec fn is_digit(c: char) -> bool {
    '0' <= c <= '9'
}

/// Whether `s` holds digits only.
pub open spec fn all_digits(s: Seq<char>) -> bool {
    forall|i: int| 0 <= i < s.len() ==> is_digit(#[trigger] s[i])
}

/// The number that the digits `s` spell in decimal; zero for none.
pub open spec fn digits_value(s: Seq<char>) -> nat
    decreases s.len(),
{
    if s.len() == 0 {
        0
    } else {
        digits_value(s.drop_last()) * 10 + (s.last() as nat - '0' as nat) as nat
    }
}

/// The number that `s` spells, if it is at most `max`: an optional plus
/// sign followed by at least one digit and nothing else.
pub open spec fn parsed_number(s: Seq<char>, max: nat) -> Option<nat> {
    let digits = if s.len() > 0 && s[0] == '+' {
        s.drop_first()
    } else {
        s
    };
    if digits.len() == 0 || !all_digits(digits) || digits_value(digits) > max {
        None
    } else {
        Some(digits_value(digits))
    }
}

/// Digits appended to a number do not make it smaller.
pub proof fn lemma_digits_value_grows(s: Seq<char>, i: int)
    requires
        0 <= i <= s.len(),
        all_digits(s),
    ensures
        digits_value(s.subrange(0, i)) <= digits_value(s),
    decreases s.len() - i,
{
    if i < s.len() {
        let next = s.subrange(0, i + 1);
        assert(next.drop_last() =~= s.subrange(0, i));
        assert(is_digit(s[i]));
        lemma_digits_value_grows(s, i + 1);
    } else {
        assert(s.subrange(0, i) =~= s);
    }
}

/// Parses the span `start..end` of `text` as a number of at most `max`.
pub fn parse_number(text: &Vec<char>, start: usize, end: usize, max: u64) -> (number: Option<u64>)
    requires
        start <= end <= text@.len(),
        max <= 0xffff_ffff,
    ensures
        match number {
            Some(value) => parsed_number(text@.subrange(start as int, end as int), max as nat)
                == Some(value as nat),
            None => parsed_number(text@.subrange(start as int, end as int), max as nat).is_none(),
        },
{
    let ghost s = text@.subrange(start as int, end as int);
    let first = if start < end && text[start] == '+' {
        start + 1
    } else {
        start
    };
    let ghost digits = text@.subrange(first as int, end as int);
    proof {
        if start < end && s[0] == '+' {
            assert(digits =~= s.drop_first());
        } else {
            assert(digits =~= s);
        }
    }
    if first == end {
        return None;
    }
    let mut value: u64 = 0;
    let mut i = first;
    assert(digits.subrange(0, 0) =~= Seq::<char>::empty());
    while i < end
        invariant
            start <= first <= i <= end <= text@.len(),
            first < end,
            max <= 0xffff_ffff,
            s == text@.subrange(start as int, end as int),
            digits == text@.subrange(first as int, end as int),
            digits == if s.len() > 0 && s[0] == '+' {
                s.drop_first()
            } else {
                s
            },
            all_digits(digits.subrange(0, i - first)),
            value == digits_value(digits.subrange(0, i - first)),
            value <= max,
        decreases end - i,
    {
        let c = text[i];
        let ghost prefix = digits.subrange(0, i - first);
        let ghost longer = digits.subrange(0, i - first + 1);
        proof {
            assert(longer.drop_last() =~= prefix);
            assert(longer.last() == c);
        }
        if !('0' <= c && c <= '9') {
            assert(!is_digit(digits[i - first]));
            return None;
        }
        let d = (c as u32 - '0' as u32) as u64;
        let next = value * 10 + d;
        assert(all_digits(longer)) by {
            assert forall|k: int| 0 <= k < longer.len() implies is_digit(#[trigger] longer[k]) by {
                if k < prefix.len() {
                    assert(longer[k] == prefix[k]);
                }
            }
        }
        if next > max {
            proof {
                if all_digits(digits) {
                    lemma_digits_value_grows(digits, i - first + 1);
                }
            }
            return None;
        }
        value = next;
        i += 1;
    }
    assert(digits.subrange(0, end - first) =~= digits);
    Some(value)
}

} // verus!
