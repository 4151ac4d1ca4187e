//! Text: decimal and hexadecimal numbers, white space, and the few string operations that the
//! configuration and the error messages need.

use vstd::prelude::*;
use vstd::utf8::{decode_utf8, valid_utf8};

verus! {

/// Specifies `String::push`: the character is appended.
pub assume_specification[ String::push ](text: &mut String, c: char)
    ensures
        final(text)@ == old(text)@.push(c),
;

/// Specifies `String::push_str`: the slice is appended.
pub assume_specification[ String::push_str ](text: &mut String, more: &str)
    ensures
        final(text)@ == old(text)@ + more@,
;

/// Calls `String::from_utf8`: a string comes back exactly when the bytes are valid UTF-8, and it
/// holds the characters that they encode.
#[verifier::external_body]
pub(crate) fn from_utf8(bytes: Vec<u8>) -> (text: Option<String>)
    ensures
        text is Some <==> valid_utf8(bytes@),
        text is Some ==> text->0@ == decode_utf8(bytes@),
{
    String::from_utf8(bytes).ok()
}

/// The characters of a string.
pub fn chars_of(text: &str) -> (chars: Vec<char>)
    ensures
        chars@ == text@,
{
    let mut chars: Vec<char> = Vec::new();
    for c in iter: text.chars()
        invariant
            iter.seq() == text@,
            chars@ == text@.take(iter.index() as int),
    {
        assert(text@.take(iter.index() + 1) =~= text@.take(iter.index() as int).push(c));
        chars.push(c);
    }
    assert(text@.take(text@.len() as int) =~= text@);
    chars
}

/// The string made of the characters.
pub fn string_of(chars: &[char]) -> (text: String)
    ensures
        text@ == chars@,
{
    let mut text = String::new();
    let mut index: usize = 0;
    while index < chars.len()
        invariant
            index <= chars@.len(),
            text@ == chars@.take(index as int),
        decreases chars@.len() - index,
    {
        assert(chars@.take(index + 1) =~= chars@.take(index as int).push(chars@[index as int]));
        text.push(chars[index]);
        index += 1;
    }
    assert(chars@.take(index as int) =~= chars@);
    text
}

/// The lower-case hexadecimal digit for a number below sixteen.
pub open spec fn digit(value: nat) -> char {
    if value < 10 {
        (48 + value) as char
    } else {
        (87 + value) as char
    }
}

/// A number written in base ten, without leading zeros.
pub open spec fn decimal(value: nat) -> Seq<char>
    decreases value,
{
    if value < 10 {
        seq![digit(value)]
    } else {
        decimal(value / 10).push(digit(value % 10))
    }
}

/// A number written in base sixteen with `width` digits, from its low end.
pub open spec fn hexadecimal(value: nat, width: nat) -> Seq<char>
    decreases width,
{
    if width == 0 {
        seq![]
    } else {
        hexadecimal(value / 16, (width - 1) as nat).push(digit(value % 16))
    }
}

fn digit_char(value: u8) -> (c: char)
    requires
        value < 16,
    ensures
        c == digit(value as nat),
{
    if value < 10 {
        (48 + value) as char
    } else {
        (87 + value) as char
    }
}

/// Appends `value` in base ten.
pub fn push_decimal(text: &mut String, value: u64)
    ensures
        final(text)@ == old(text)@ + decimal(value as nat),
    decreases value,
{
    if value >= 10 {
        push_decimal(text, value / 10);
    }
    text.push(digit_char((value % 10) as u8));
    assert(text@ =~= old(text)@ + decimal(value as nat));
}

/// `value` in base ten.
pub fn decimal_string(value: u64) -> (text: String)
    ensures
        text@ == decimal(value as nat),
{
    let mut text = String::new();
    push_decimal(&mut text, value);
    assert(text@ =~= decimal(value as nat));
    text
}

/// Appends `value` in base sixteen with `width` digits.
pub fn push_hexadecimal(text: &mut String, value: u128, width: u8)
    ensures
        final(text)@ == old(text)@ + hexadecimal(value as nat, width as nat),
    decreases width,
{
    if width > 0 {
        push_hexadecimal(text, value / 16, width - 1);
        text.push(digit_char((value % 16) as u8));
    }
    assert(text@ =~= old(text)@ + hexadecimal(value as nat, width as nat));
}

/// Whether a character is a decimal digit.
pub open spec fn is_digit(c: char) -> bool {
    '0' <= c <= '9'
}

/// The number that a run of decimal digits spells.
pub open spec fn digits_value(digits: Seq<char>) -> nat
    decreases digits.len(),
{
    if digits.len() == 0 {
        0
    } else {
        digits_value(digits.drop_last()) * 10 + (digits.last() as nat - 48) as nat
    }
}

/// The digits of an unsigned number: what follows an optional plus sign.
pub open spec fn unsigned_digits(text: Seq<char>) -> Seq<char> {
    if text.len() > 0 && text[0] == '+' {
        text.skip(1)
    } else {
        text
    }
}

/// The number that a text spells: an optional plus sign, then one decimal digit or more, and
/// nothing else.
pub open spec fn unsigned_number(text: Seq<char>) -> Option<nat> {
    let digits = unsigned_digits(text);
    if digits.len() > 0 && (forall|i: int| 0 <= i < digits.len() ==> is_digit(#[trigger] digits[i])) {
        Some(digits_value(digits))
    } else {
        None
    }
}

/// Reads an unsigned number that is at most `maximum`.
pub fn parse_unsigned(text: &[char], maximum: u64) -> (number: Option<u64>)
    ensures
        number == (match unsigned_number(text@) {
            Some(value) if value <= maximum => Some(value as u64),
            _ => None,
        }),
{
    let start: usize = if text.len() > 0 && text[0] == '+' {
        1
    } else {
        0
    };
    let ghost digits = unsigned_digits(text@);
    assert(digits =~= text@.skip(start as int));
    if start == text.len() {
        return None;
    }
    let mut value: u64 = 0;
    let mut fits = true;
    let mut index: usize = start;
    while index < text.len()
        invariant
            start <= index <= text@.len(),
            digits == text@.skip(start as int),
            digits == unsigned_digits(text@),
            forall|i: int| 0 <= i < index - start ==> is_digit(#[trigger] digits[i]),
            fits ==> value == digits_value(digits.take(index - start)) && value <= maximum,
            !fits ==> digits_value(digits.take(index - start)) > maximum,
        decreases text@.len() - index,
    {
        let c: char = text[index];
        if c < '0' || c > '9' {
            assert(!is_digit(digits[index - start]));
            return None;
        }
        let step: u64 = c as u64 - 48;
        proof {
            let next = digits.take(index - start + 1);
            assert(next.drop_last() =~= digits.take(index - start));
            assert(next.last() == c);
            assert(digits[index - start] == c);
        }
        if fits && step <= maximum && value <= (maximum - step) / 10 {
            value = value * 10 + step;
        } else {
            fits = false;
        }
        index += 1;
    }
    assert(digits.take(index - start) =~= digits);
    if fits {
        Some(value)
    } else {
        None
    }
}

/// Whether a character has the Unicode property `White_Space`.
pub open spec fn is_space(c: char) -> bool {
    ||| 9 <= c as nat <= 13
    ||| c as nat == 0x20
    ||| c as nat == 0x85
    ||| c as nat == 0xa0
    ||| c as nat == 0x1680
    ||| 0x2000 <= c as nat <= 0x200a
    ||| c as nat == 0x2028
    ||| c as nat == 0x2029
    ||| c as nat == 0x202f
    ||| c as nat == 0x205f
    ||| c as nat == 0x3000
}

fn space(c: char) -> (white: bool)
    ensures
        white == is_space(c),
{
    let code: u32 = c as u32;
    (9 <= code && code <= 13) || code == 0x20 || code == 0x85 || code == 0xa0 || code == 0x1680 || (
    0x2000 <= code && code <= 0x200a) || code == 0x2028 || code == 0x2029 || code == 0x202f || code
        == 0x205f || code == 0x3000
}

/// A text without the white space at its start.
pub open spec fn trimmed_start(text: Seq<char>) -> Seq<char>
    decreases text.len(),
{
    if text.len() > 0 && is_space(text[0]) {
        trimmed_start(text.skip(1))
    } else {
        text
    }
}

/// A text without the white space at its end.
pub open spec fn trimmed_end(text: Seq<char>) -> Seq<char>
    decreases text.len(),
{
    if text.len() > 0 && is_space(text.last()) {
        trimmed_end(text.drop_last())
    } else {
        text
    }
}

/// A text without the white space at either end.
pub open spec fn trimmed(text: Seq<char>) -> Seq<char> {
    trimmed_end(trimmed_start(text))
}

/// The part of `text` without the white space at either end.
pub fn trim(text: &[char]) -> (middle: &[char])
    ensures
        middle@ == trimmed(text@),
{
    let mut start: usize = 0;
    assert(text@.skip(0) =~= text@);
    while start < text.len() && space(text[start])
        invariant
            start <= text@.len(),
            trimmed_start(text@) == trimmed_start(text@.skip(start as int)),
        decreases text@.len() - start,
    {
        assert(text@.skip(start as int).skip(1) =~= text@.skip(start + 1));
        start += 1;
    }
    let mut end: usize = text.len();
    let ghost rest = text@.skip(start as int);
    assert(trimmed_start(text@) == rest);
    assert(rest.take(end - start) =~= rest);
    while start < end && space(text[end - 1])
        invariant
            start <= end <= text@.len(),
            rest == text@.skip(start as int),
            trimmed_end(rest) == trimmed_end(rest.take(end - start)),
        decreases end,
    {
        assert(rest.take(end - start).drop_last() =~= rest.take(end - start - 1));
        end -= 1;
    }
    assert(rest.take(end - start) =~= text@.subrange(start as int, end as int));
    vstd::slice::slice_subrange(text, start, end)
}

/// The pieces of a text between the separators.
pub open spec fn pieces(text: Seq<char>, separator: char) -> Seq<Seq<char>>
    decreases text.len(),
{
    if text.len() == 0 {
        seq![seq![]]
    } else {
        let before = pieces(text.drop_last(), separator);
        if text.last() == separator {
            before.push(seq![])
        } else {
            before.drop_last().push(before.last().push(text.last()))
        }
    }
}

/// There is always at least one piece.
pub proof fn lemma_pieces(text: Seq<char>, separator: char)
    ensures
        pieces(text, separator).len() > 0,
    decreases text.len(),
{
    if text.len() > 0 {
        lemma_pieces(text.drop_last(), separator);
    }
}

/// The characters of each piece.
pub open spec fn piece_views(parts: Seq<Vec<char>>) -> Seq<Seq<char>> {
    parts.map_values(|part: Vec<char>| part@)
}

/// The pieces of a text between the separators.
pub fn split(text: &[char], separator: char) -> (parts: Vec<Vec<char>>)
    ensures
        piece_views(parts@) == pieces(text@, separator),
{
    let mut parts: Vec<Vec<char>> = Vec::new();
    let mut current: Vec<char> = Vec::new();
    assert(piece_views(parts@).push(current@) =~= pieces(text@.take(0), separator));
    for index in 0..text.len()
        invariant
            piece_views(parts@).push(current@) == pieces(text@.take(index as int), separator),
    {
        let c: char = text[index];
        let ghost before = piece_views(parts@);
        let ghost last = current@;
        proof {
            let next = text@.take(index + 1);
            assert(next.drop_last() =~= text@.take(index as int));
            assert(next.last() == c);
            assert(before.push(last).drop_last() =~= before);
        }
        if c == separator {
            parts.push(current);
            assert(piece_views(parts@) =~= before.push(last));
            current = Vec::new();
            assert(current@ =~= seq![]);
        } else {
            current.push(c);
        }
    }
    let ghost before = piece_views(parts@);
    let ghost last = current@;
    parts.push(current);
    assert(piece_views(parts@) =~= before.push(last));
    assert(text@.take(text@.len() as int) =~= text@);
    parts
}

/// Where a character occurs first.
pub fn find_first(text: &[char], wanted: char) -> (place: Option<usize>)
    ensures
        match place {
            Some(index) => text@.index_of_first(wanted) == Some(index as int) && index
                < text@.len(),
            None => text@.index_of_first(wanted) is None,
        },
{
    proof {
        text@.index_of_first_ensures(wanted);
    }
    for index in 0..text.len()
        invariant
            forall|i: int| 0 <= i < index ==> text@[i] != wanted,
            match text@.index_of_first(wanted) {
                Some(first) => {
                    &&& 0 <= first < text@.len()
                    &&& text@[first] == wanted
                    &&& forall|j: int| 0 <= j < first < text@.len() ==> text@[j] != wanted
                },
                None => !text@.contains(wanted),
            },
    {
        if text[index] == wanted {
            assert(text@.contains(wanted));
            return Some(index);
        }
    }
    None
}

/// Where a character occurs last.
pub fn find_last(text: &[char], wanted: char) -> (place: Option<usize>)
    ensures
        match place {
            Some(index) => text@.index_of_last(wanted) == Some(index as int) && index < text@.len(),
            None => text@.index_of_last(wanted) is None,
        },
{
    proof {
        text@.index_of_last_ensures(wanted);
    }
    let mut end: usize = text.len();
    while end > 0
        invariant
            end <= text@.len(),
            forall|i: int| end <= i < text@.len() ==> text@[i] != wanted,
            match text@.index_of_last(wanted) {
                Some(last) => {
                    &&& 0 <= last < text@.len()
                    &&& text@[last] == wanted
                    &&& forall|j: int| 0 <= last < j < text@.len() ==> text@[j] != wanted
                },
                None => !text@.contains(wanted),
            },
        decreases end,
    {
        if text[end - 1] == wanted {
            assert(text@.contains(wanted));
            return Some(end - 1);
        }
        end -= 1;
    }
    None
}

/// A character with ASCII upper case made lower.
pub open spec fn lower_char(c: char) -> char {
    if 'A' <= c <= 'Z' {
        (c as nat + 32) as char
    } else {
        c
    }
}

/// A text with ASCII upper case made lower.
pub open spec fn lowered(text: Seq<char>) -> Seq<char> {
    text.map_values(|c: char| lower_char(c))
}

/// `text` with ASCII upper case made lower.
pub fn lowercase(text: &str) -> (lower: String)
    ensures
        lower@ == lowered(text@),
{
    let chars: Vec<char> = chars_of(text);
    let mut lower = String::new();
    let mut index: usize = 0;
    while index < chars.len()
        invariant
            chars@ == text@,
            index <= chars@.len(),
            lower@ == lowered(text@.take(index as int)),
        decreases chars@.len() - index,
    {
        let c: char = chars[index];
        let folded: char = if 'A' <= c && c <= 'Z' {
            (c as u8 + 32) as char
        } else {
            c
        };
        lower.push(folded);
        index += 1;
        assert(lower@ =~= lowered(text@.take(index as int)));
    }
    assert(text@.take(index as int) =~= text@);
    lower
}

/// Whether two texts hold the same characters.
pub fn same_text(left: &str, right: &str) -> (same: bool)
    ensures
        same == (left@ == right@),
{
    let one: Vec<char> = chars_of(left);
    let other: Vec<char> = chars_of(right);
    same_chars(one.as_slice(), other.as_slice())
}

/// Whether two runs of characters are equal.
pub fn same_chars(left: &[char], right: &[char]) -> (same: bool)
    ensures
        same == (left@ == right@),
{
    if left.len() != right.len() {
        return false;
    }
    let mut index: usize = 0;
    while index < left.len()
        invariant
            left@.len() == right@.len(),
            index <= left@.len(),
            left@.take(index as int) == right@.take(index as int),
        decreases left@.len() - index,
    {
        if left[index] != right[index] {
            assert(left@[index as int] != right@[index as int]);
            return false;
        }
        assert(left@.take(index + 1) =~= left@.take(index as int).push(left@[index as int]));
        assert(right@.take(index + 1) =~= right@.take(index as int).push(right@[index as int]));
        index += 1;
    }
    assert(left@.take(index as int) =~= left@);
    assert(right@.take(index as int) =~= right@);
    true
}

/// What the formatting of a string with `{:?}` gives: the text in quotes, with escapes.
pub uninterp spec fn quoted(text: Seq<char>) -> Seq<char>;

/// Calls `<str as Debug>::fmt` through `format!`. Its result is named, not described: which
/// characters are escaped follows tables of the Unicode standard.
#[verifier::external_body]
pub(crate) fn quote(text: &str) -> (result: String)
    ensures
        result@ == quoted(text@),
{
    format!("{text:?}")
}

pub proof fn lemma_decimal_digits(value: nat)
    ensures
        decimal(value).len() > 0,
        forall|i: int| 0 <= i < decimal(value).len() ==> is_digit(#[trigger] decimal(value)[i]),
        digits_value(decimal(value)) == value,
    decreases value,
{
    if value < 10 {
        assert(decimal(value).drop_last() =~= seq![]);
        assert(digits_value(seq![]) == 0);
    } else {
        lemma_decimal_digits(value / 10);
        assert(decimal(value).drop_last() =~= decimal(value / 10));
    }
}

/// A number that was written in base ten is read back, with or without white space cut away.
pub proof fn law_decimal_round_trip(value: nat)
    ensures
        unsigned_number(decimal(value)) == Some(value),
        trimmed(decimal(value)) == decimal(value),
{
    lemma_decimal_digits(value);
    let text = decimal(value);
    assert(is_digit(text[0]));
    assert(is_digit(text[text.len() - 1]));
    assert(unsigned_digits(text) == text);
}

/// The last digit of a number stands for what is left of it when it is divided by ten, and the
/// digits before it are those of the quotient. A number below ten is one digit.
pub proof fn law_decimal_digits(value: nat)
    ensures
        decimal(value).len() > 0,
        decimal(value).last() as nat == '0' as nat + value % 10,
        value < 10 ==> decimal(value).len() == 1,
        value >= 10 ==> decimal(value).drop_last() == decimal(value / 10),
{
    lemma_decimal_digits(value);
    if value >= 10 {
        assert(decimal(value).drop_last() =~= decimal(value / 10));
    }
}

/// A number is read digit by digit, each worth ten times the next. A plus sign before it makes no
/// difference. Without a digit, or with anything else in it, a text is no number.
pub proof fn law_numbers_are_read_by_digits(text: Seq<char>, c: char, place: int)
    ensures
        unsigned_number(seq![]) is None,
        unsigned_number(seq!['+']) is None,
        unsigned_number(text) is Some && '0' <= c <= '9' ==> unsigned_number(text.push(c)) == Some(
            (10 * unsigned_number(text)->0 + (c as nat - '0' as nat)) as nat,
        ),
        '0' <= c <= '9' ==> unsigned_number(seq![c]) == Some((c as nat - '0' as nat) as nat),
        unsigned_number(text) is Some && text[0] != '+' ==> unsigned_number(seq!['+'] + text)
            == unsigned_number(text),
        0 <= place < text.len() && !('0' <= text[place] <= '9') && (place > 0 || text[0] != '+')
            ==> unsigned_number(text) is None,
{
    assert(unsigned_digits(seq!['+']) =~= seq![]);
    let digits = unsigned_digits(text);
    let longer = unsigned_digits(text.push(c));
    if unsigned_number(text) is Some {
        assert(longer =~= digits.push(c));
        assert(longer.drop_last() =~= digits);
        if '0' <= c <= '9' {
            assert forall|i: int| 0 <= i < longer.len() implies is_digit(#[trigger] longer[i]) by {
                if i < digits.len() {
                    assert(is_digit(digits[i]));
                }
            }
        }
        assert((seq!['+'] + text).skip(1) =~= text);
    }
    let alone = seq![c];
    if '0' <= c <= '9' {
        assert(unsigned_digits(alone) =~= alone);
        assert(alone.drop_last() =~= seq![]);
        assert(digits_value(alone) == digits_value(seq![]) * 10 + (c as nat - 48) as nat);
    }
    if 0 <= place < text.len() && !('0' <= text[place] <= '9') && (place > 0 || text[0] != '+') {
        if text[0] == '+' {
            assert(digits[place - 1] == text[place]);
        } else {
            assert(digits[place] == text[place]);
        }
    }
}

proof fn lemma_trimmed_start(text: Seq<char>) -> (start: int)
    ensures
        0 <= start <= text.len(),
        trimmed_start(text) == text.skip(start),
        forall|i: int| 0 <= i < start ==> is_space(#[trigger] text[i]),
        start < text.len() ==> !is_space(text[start]),
    decreases text.len(),
{
    if text.len() > 0 && is_space(text[0]) {
        let rest = text.skip(1);
        let start = lemma_trimmed_start(rest);
        assert(rest.skip(start) =~= text.skip(start + 1));
        assert forall|i: int| 0 <= i < start + 1 implies is_space(#[trigger] text[i]) by {
            if i > 0 {
                assert(rest[i - 1] == text[i]);
            }
        }
        start + 1
    } else {
        assert(text.skip(0) =~= text);
        0
    }
}

proof fn lemma_trimmed_end(text: Seq<char>) -> (end: int)
    ensures
        0 <= end <= text.len(),
        trimmed_end(text) == text.take(end),
        forall|i: int| end <= i < text.len() ==> is_space(#[trigger] text[i]),
        end > 0 ==> !is_space(text[end - 1]),
    decreases text.len(),
{
    if text.len() > 0 && is_space(text.last()) {
        let shorter = text.drop_last();
        let end = lemma_trimmed_end(shorter);
        assert(shorter.take(end) =~= text.take(end));
        assert forall|i: int| end <= i < text.len() implies is_space(#[trigger] text[i]) by {
            if i < shorter.len() {
                assert(shorter[i] == text[i]);
            }
        }
        end
    } else {
        assert(text.take(text.len() as int) =~= text);
        text.len() as int
    }
}

/// Whether a text is what is left of another when white space is cut away at both ends, from one
/// place to another.
pub open spec fn cut_to(text: Seq<char>, middle: Seq<char>, start: int, end: int) -> bool {
    &&& 0 <= start <= end <= text.len()
    &&& middle == text.subrange(start, end)
    &&& forall|i: int| 0 <= i < start || end <= i < text.len() ==> is_space(#[trigger] text[i])
}

/// Trimming takes away white space at the ends, all of it, and nothing else.
pub proof fn law_trimming_cuts_white_space(text: Seq<char>)
    ensures
        exists|start: int, end: int| #[trigger] cut_to(text, trimmed(text), start, end),
        trimmed(text).len() > 0 ==> !is_space(trimmed(text)[0]) && !is_space(trimmed(text).last()),
        is_space(' ') && is_space('\t') && is_space('\n') && is_space('\r'),
        forall|c: char| ' ' < c <= '~' ==> !is_space(c),
        is_space('\u{b}') && is_space('\u{c}') && is_space('\u{85}') && is_space('\u{a0}'),
        is_space('\u{1680}') && is_space('\u{2028}') && is_space('\u{2029}') && is_space('\u{202f}'),
        is_space('\u{205f}') && is_space('\u{3000}') && !is_space('\u{200b}') && !is_space('\u{feff}'),
        forall|c: char| '\u{2000}' <= c <= '\u{200a}' ==> is_space(c),
        forall|c: char|
            #[trigger] is_space(c) ==> {
                let code = c as nat;
                ||| 9 <= code <= 13 || code == 0x20 || code == 0x85 || code == 0xa0
                ||| code == 0x1680 || 0x2000 <= code <= 0x200a || code == 0x2028 || code == 0x2029
                ||| code == 0x202f || code == 0x205f || code == 0x3000
            },
{
    let start = lemma_trimmed_start(text);
    let rest = text.skip(start);
    let length = lemma_trimmed_end(rest);
    assert(rest.take(length) =~= text.subrange(start, start + length));
    assert forall|i: int| 0 <= i < start || start + length <= i < text.len() implies is_space(
        #[trigger] text[i],
    ) by {
        if i >= start {
            assert(rest[i - start] == text[i]);
        }
    }
    assert(cut_to(text, trimmed(text), start, start + length));
    if length > 0 {
        assert(rest[length - 1] == trimmed(text).last());
        assert(text[start] == trimmed(text)[0]);
    }
}

/// Texts with a separator between each two.
pub open spec fn joined_by(parts: Seq<Seq<char>>, separator: char) -> Seq<char>
    decreases parts.len(),
{
    if parts.len() == 0 {
        seq![]
    } else if parts.len() == 1 {
        parts[0]
    } else {
        joined_by(parts.drop_last(), separator) + seq![separator] + parts.last()
    }
}

/// The pieces of a text have no separator in them, and give the text back when they are put
/// together with one between each two.
pub proof fn law_pieces_make_up_the_text(text: Seq<char>, separator: char)
    ensures
        joined_by(pieces(text, separator), separator) == text,
        forall|i: int|
            0 <= i < pieces(text, separator).len() ==> !(#[trigger] pieces(
                text,
                separator,
            )[i]).contains(separator),
    decreases text.len(),
{
    if text.len() > 0 {
        let shorter = text.drop_last();
        let before = pieces(shorter, separator);
        let after = pieces(text, separator);
        lemma_pieces(shorter, separator);
        law_pieces_make_up_the_text(shorter, separator);
        if text.last() == separator {
            assert(after.drop_last() =~= before);
            assert(joined_by(after, separator) =~= joined_by(before, separator) + seq![separator]);
        } else {
            assert(after.drop_last() =~= before.drop_last());
            assert(joined_by(after, separator) =~= joined_by(before, separator).push(text.last()));
        }
        assert(joined_by(after, separator) =~= text);
        assert forall|i: int| 0 <= i < after.len() implies !(#[trigger] after[i]).contains(
            separator,
        ) by {
            if i < before.len() {
                assert(!before[i].contains(separator));
            }
            if after[i].contains(separator) {
                let j = choose|j: int| 0 <= j < after[i].len() && after[i][j] == separator;
                if i < before.len() && j < before[i].len() {
                    assert(before[i][j] == separator);
                }
            }
        }
    }
}

/// Making a text lower-case changes its ASCII capitals to the letters thirty-two places on, and no
/// other character.
pub proof fn law_lower_case_changes_capitals(text: Seq<char>, i: int)
    requires
        0 <= i < text.len(),
    ensures
        lowered(text).len() == text.len(),
        lowered(text)[i] as nat == (if 'A' <= text[i] <= 'Z' {
            text[i] as nat + 32
        } else {
            text[i] as nat
        }),
{
}

/// The digits of a hexadecimal number are worth sixteen times the next, from its low end.
pub proof fn law_hexadecimal_digits(value: nat, width: nat)
    requires
        width > 0,
    ensures
        hexadecimal(value, width).last() as nat == (if value % 16 < 10 {
            '0' as nat + value % 16
        } else {
            ('a' as nat + value % 16 - 10) as nat
        }),
        hexadecimal(value, width).drop_last() == hexadecimal(value / 16, (width - 1) as nat),
        hexadecimal(value, 0).len() == 0,
{
    assert(hexadecimal(value, width).drop_last() =~= hexadecimal(
        value / 16,
        (width - 1) as nat,
    ));
}

} // verus!
