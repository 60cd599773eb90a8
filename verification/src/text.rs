//! Pieces of the messages and names that the library writes.

use vstd::prelude::*;
use vstd::string::*;
use vstd::utf8::*;

verus! {

/// `String::push` appends one character to the end of a string.
pub assume_specification[ std::string::String::push ](written: &mut String, c: char)
    ensures
        final(written)@ == old(written)@.push(c),
;

/// Wraps `std::str::from_utf8`: valid UTF-8 is read as the text that it encodes,
/// anything else is refused.
#[verifier::external_body]
pub(crate) fn text_from_utf8(bytes: &[u8]) -> (read: Option<String>)
    ensures
        read is Some <==> valid_utf8(bytes@),
        read matches Some(s) ==> s@ == decode_utf8(bytes@),
{
    std::str::from_utf8(bytes).ok().map(str::to_string)
}

/// The bytes of two texts, one after the other, are the bytes of their concatenation.
pub proof fn lemma_encode_both(left: Seq<char>, right: Seq<char>)
    ensures
        encode_utf8(left + right) == encode_utf8(left) + encode_utf8(right),
    decreases left.len(),
{
    if left.len() == 0 {
        assert(left + right =~= right);
        assert(encode_utf8(left) + encode_utf8(right) =~= encode_utf8(right));
    } else {
        lemma_encode_both(left.drop_first(), right);
        assert((left + right).drop_first() =~= left.drop_first() + right);
        assert(encode_utf8(left + right) =~= encode_utf8(left) + encode_utf8(right));
    }
}

/// A decimal digit.
pub open spec fn digit_text(digit: nat) -> Seq<char> {
    if digit == 0 {
        "0"@
    } else if digit == 1 {
        "1"@
    } else if digit == 2 {
        "2"@
    } else if digit == 3 {
        "3"@
    } else if digit == 4 {
        "4"@
    } else if digit == 5 {
        "5"@
    } else if digit == 6 {
        "6"@
    } else if digit == 7 {
        "7"@
    } else if digit == 8 {
        "8"@
    } else {
        "9"@
    }
}

/// A number in decimal digits, without leading zeros.
pub open spec fn number_text(n: nat) -> Seq<char>
    decreases n,
{
    if n < 10 {
        digit_text(n)
    } else {
        number_text(n / 10) + digit_text(n % 10)
    }
}

proof fn lemma_digit_text(a: nat, b: nat)
    requires
        a < 10,
        b < 10,
    ensures
        digit_text(a).len() == 1,
        digit_text(a) == digit_text(b) ==> a == b,
{
    reveal_strlit("0");
    reveal_strlit("1");
    reveal_strlit("2");
    reveal_strlit("3");
    reveal_strlit("4");
    reveal_strlit("5");
    reveal_strlit("6");
    reveal_strlit("7");
    reveal_strlit("8");
    reveal_strlit("9");
    if digit_text(a) == digit_text(b) {
        assert(digit_text(a)[0] == digit_text(b)[0]);
    }
}

/// Different numbers are written differently.
pub proof fn lemma_number_text(a: nat, b: nat)
    ensures
        number_text(a).len() > 0,
        number_text(a) == number_text(b) ==> a == b,
    decreases a,
{
    lemma_digit_text(a % 10, b % 10);
    lemma_digit_text(b % 10, a % 10);
    lemma_number_text_len(b);
    if a >= 10 {
        lemma_number_text(a / 10, b / 10);
    }
    let one = number_text(a);
    let two = number_text(b);
    if one == two {
        assert(one.last() == digit_text(a % 10)[0]);
        assert(two.last() == digit_text(b % 10)[0]);
        assert(digit_text(a % 10) =~= digit_text(b % 10));
        if a >= 10 && b >= 10 {
            assert(one.drop_last() =~= number_text(a / 10));
            assert(two.drop_last() =~= number_text(b / 10));
        } else if a >= 10 {
            assert(one.len() > 1);
        } else if b >= 10 {
            lemma_number_text_len(b / 10);
            assert(two.len() > 1);
        }
    }
}

proof fn lemma_number_text_len(n: nat)
    ensures
        number_text(n).len() > 0,
    decreases n,
{
    lemma_digit_text(n % 10, n % 10);
    if n >= 10 {
        lemma_number_text_len(n / 10);
    }
}

fn append_digit(text: &mut String, digit: u64)
    requires
        digit < 10,
    ensures
        final(text)@ == old(text)@ + digit_text(digit as nat),
{
    let written: &str = if digit == 0 {
        "0"
    } else if digit == 1 {
        "1"
    } else if digit == 2 {
        "2"
    } else if digit == 3 {
        "3"
    } else if digit == 4 {
        "4"
    } else if digit == 5 {
        "5"
    } else if digit == 6 {
        "6"
    } else if digit == 7 {
        "7"
    } else if digit == 8 {
        "8"
    } else {
        "9"
    };
    text.append(written);
}

/// Appends a number in decimal digits.
pub fn append_number(text: &mut String, n: u64)
    ensures
        final(text)@ == old(text)@ + number_text(n as nat),
    decreases n,
{
    if n >= 10 {
        append_number(text, n / 10);
    }
    append_digit(text, n % 10);
    assert(text@ =~= old(text)@ + number_text(n as nat));
}

/// The low `width` decimal digits of a number, padded with zeros.
pub open spec fn padded_text(n: nat, width: nat) -> Seq<char>
    decreases width,
{
    if width == 0 {
        Seq::empty()
    } else {
        padded_text(n / 10, (width - 1) as nat) + digit_text(n % 10)
    }
}

fn append_padded(text: &mut String, n: u64, width: u8)
    ensures
        final(text)@ == old(text)@ + padded_text(n as nat, width as nat),
    decreases width,
{
    if width > 0 {
        append_padded(text, n / 10, width - 1);
        append_digit(text, n % 10);
    }
    assert(text@ =~= old(text)@ + padded_text(n as nat, width as nat));
}

/// Appends a number in twenty decimal digits.
pub fn append_number20(text: &mut String, n: u64)
    ensures
        final(text)@ == old(text)@ + padded_text(n as nat, 20),
{
    append_padded(text, n, 20);
}

/// The characters of a text.
pub fn text_chars(text: &str) -> (chars: Vec<char>)
    ensures
        chars@ == text@,
{
    broadcast use axiom_spec_iter;

    let mut chars: Vec<char> = Vec::new();
    for c in it: text.chars()
        invariant
            it.seq() == text@,
            chars@ == text@.take(it.index() as int),
    {
        chars.push(c);
        assert(chars@ =~= text@.take(it.index() + 1));
    }
    assert(text@.take(text@.len() as int) =~= text@);
    chars
}

/// The text that a range of characters makes.
pub fn text_of(chars: &Vec<char>, from: usize, to: usize) -> (text: String)
    requires
        from <= to <= chars.len(),
    ensures
        text@ == chars@.subrange(from as int, to as int),
{
    let mut text: String = String::new();
    let mut i: usize = from;
    assert(text@ =~= chars@.subrange(from as int, from as int));
    while i < to
        invariant
            from <= i <= to <= chars.len(),
            text@ == chars@.subrange(from as int, i as int),
        decreases to - i,
    {
        text.push(chars[i]);
        assert(chars@.subrange(from as int, i + 1) =~= chars@.subrange(from as int, i as int).push(
            chars@[i as int],
        ));
        i = i + 1;
    }
    text
}

/// A text without the slashes at its end.
pub open spec fn without_end_slashes(text: Seq<char>) -> Seq<char>
    decreases text.len(),
{
    if text.len() > 0 && text.last() == '/' {
        without_end_slashes(text.drop_last())
    } else {
        text
    }
}

/// Drops the slashes at the end of a text.
pub fn trim_end_slashes(text: &str) -> (trimmed: String)
    ensures
        trimmed@ == without_end_slashes(text@),
{
    let chars = text_chars(text);
    let mut end: usize = chars.len();
    assert(chars@.take(end as int) =~= chars@);
    while end > 0 && chars[end - 1] == '/'
        invariant
            end <= chars.len(),
            without_end_slashes(chars@.take(end as int)) == without_end_slashes(chars@),
        decreases end,
    {
        assert(chars@.take(end as int).drop_last() =~= chars@.take(end - 1));
        end = end - 1;
    }
    assert(chars@.subrange(0, end as int) =~= chars@.take(end as int));
    text_of(&chars, 0, end)
}

/// Whether a character is white space in Unicode.
pub open spec fn is_white(c: char) -> bool {
    let code = c as u32;
    ||| 9 <= code <= 13
    ||| code == 0x20
    ||| code == 0x85
    ||| code == 0xa0
    ||| code == 0x1680
    ||| 0x2000 <= code <= 0x200a
    ||| code == 0x2028
    ||| code == 0x2029
    ||| code == 0x202f
    ||| code == 0x205f
    ||| code == 0x3000
}

/// Whether a character is white space in Unicode.
pub fn is_white_space(c: char) -> (white: bool)
    ensures
        white == is_white(c),
{
    let code: u32 = c as u32;
    (9 <= code && code <= 13) || code == 0x20 || code == 0x85 || code == 0xa0 || code == 0x1680 || (
    0x2000 <= code && code <= 0x200a) || code == 0x2028 || code == 0x2029 || code == 0x202f || code
        == 0x205f || code == 0x3000
}

/// What is stripped from the ends of a text.
#[derive(Debug, Clone, Copy, PartialEq, Eq, Structural)]
pub enum Strip {
    White,
    Only(char),
}

/// Whether a character is stripped.
pub open spec fn is_stripped(strip: Strip, c: char) -> bool {
    match strip {
        Strip::White => is_white(c),
        Strip::Only(only) => c == only,
    }
}

/// A text without what is stripped at its beginning.
pub open spec fn stripped_front(text: Seq<char>, strip: Strip) -> Seq<char>
    decreases text.len(),
{
    if text.len() > 0 && is_stripped(strip, text[0]) {
        stripped_front(text.skip(1), strip)
    } else {
        text
    }
}

/// A text without what is stripped at its end.
pub open spec fn stripped_back(text: Seq<char>, strip: Strip) -> Seq<char>
    decreases text.len(),
{
    if text.len() > 0 && is_stripped(strip, text.last()) {
        stripped_back(text.drop_last(), strip)
    } else {
        text
    }
}

/// A text without what is stripped at its two ends.
pub open spec fn stripped(text: Seq<char>, strip: Strip) -> Seq<char> {
    stripped_back(stripped_front(text, strip), strip)
}

fn strips(strip: Strip, c: char) -> (strips: bool)
    ensures
        strips == is_stripped(strip, c),
{
    match strip {
        Strip::White => is_white_space(c),
        Strip::Only(only) => c == only,
    }
}

/// Strips the two ends of a text.
pub fn strip_ends(chars: &Vec<char>, strip: Strip) -> (rest: Vec<char>)
    ensures
        rest@ == stripped(chars@, strip),
{
    let mut from: usize = 0;
    assert(chars@.skip(0) =~= chars@);
    while from < chars.len() && strips(strip, chars[from])
        invariant
            from <= chars@.len(),
            stripped_front(chars@.skip(from as int), strip) == stripped_front(chars@, strip),
        decreases chars@.len() - from,
    {
        assert(chars@.skip(from as int).skip(1) =~= chars@.skip(from + 1));
        from = from + 1;
    }
    let ghost front = chars@.skip(from as int);
    assert(front == stripped_front(chars@, strip));
    let mut to: usize = chars.len();
    assert(chars@.subrange(from as int, to as int) =~= front);
    while to > from && strips(strip, chars[to - 1])
        invariant
            from <= to <= chars@.len(),
            stripped_back(chars@.subrange(from as int, to as int), strip) == stripped_back(
                front,
                strip,
            ),
        decreases to - from,
    {
        assert(chars@.subrange(from as int, to as int).drop_last() =~= chars@.subrange(
            from as int,
            to - 1,
        ));
        to = to - 1;
    }
    let mut rest: Vec<char> = Vec::new();
    let mut i: usize = from;
    assert(rest@ =~= chars@.subrange(from as int, from as int));
    while i < to
        invariant
            from <= i <= to <= chars@.len(),
            rest@ == chars@.subrange(from as int, i as int),
        decreases to - i,
    {
        rest.push(chars[i]);
        assert(rest@ =~= chars@.subrange(from as int, i + 1));
        i = i + 1;
    }
    rest
}

/// A letter of ASCII in lower case; any other character as it is.
pub open spec fn lower(c: char) -> char {
    if 'A' <= c <= 'Z' {
        ((c as u32) + 32) as char
    } else {
        c
    }
}

/// A text with the letters of ASCII in lower case.
pub open spec fn lower_text(text: Seq<char>) -> Seq<char> {
    Seq::new(text.len(), |i: int| lower(text[i]))
}

fn lower_char(c: char) -> (lowered: char)
    ensures
        lowered == lower(c),
{
    let code: u32 = c as u32;
    if 65 <= code && code <= 90 {
        ((code + 32) as u8) as char
    } else {
        c
    }
}

/// Turns the letters of ASCII into lower case.
pub fn lower_chars(chars: &Vec<char>) -> (lowered: String)
    ensures
        lowered@ == lower_text(chars@),
{
    let mut lowered: String = String::new();
    let mut i: usize = 0;
    while i < chars.len()
        invariant
            i <= chars@.len(),
            lowered@.len() == i,
            forall|k: int| 0 <= k < i ==> #[trigger] lowered@[k] == lower(chars@[k]),
        decreases chars@.len() - i,
    {
        lowered.push(lower_char(chars[i]));
        i = i + 1;
    }
    assert(lowered@ =~= lower_text(chars@));
    lowered
}

} // verus!
