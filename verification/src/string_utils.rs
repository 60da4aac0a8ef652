//! Character classes of the source language and small helpers on strings.

use vstd::prelude::*;
use vstd::string::*;

verus! {

/// `c` is one of `A`..`Z` or `a`..`z`.
pub open spec fn is_letter(c: char) -> bool {
    ('a' <= c && c <= 'z') || ('A' <= c && c <= 'Z')
}

/// `c` is one of `0`..`9`.
pub open spec fn is_digit(c: char) -> bool {
    '0' <= c && c <= '9'
}

/// The number that the decimal digit `c` stands for.
pub open spec fn digit_value(c: char) -> nat
    recommends
        is_digit(c),
{
    (c as int - '0' as int) as nat
}

/// Tells whether `c` is an ASCII letter.
pub fn char_is_letter(c: char) -> (b: bool)
    ensures
        b == is_letter(c),
{
    ('a' <= c && c <= 'z') || ('A' <= c && c <= 'Z')
}

/// Tells whether `c` is a decimal digit.
pub fn char_is_digit(c: char) -> (b: bool)
    ensures
        b == is_digit(c),
{
    '0' <= c && c <= '9'
}

/// The character of `txt` at position `pos`, counted in characters.
pub fn char_at(txt: &String, pos: usize) -> (c: char)
    requires
        pos < txt@.len(),
    ensures
        c == txt@[pos as int],
{
    txt.as_str().get_char(pos)
}

/// The characters of `s`, in order.
pub fn chars_of(s: &str) -> (v: Vec<char>)
    ensures
        v@ == s@,
{
    let mut v: Vec<char> = Vec::new();
    for c in it: s.chars()
        invariant
            v@ == it.seq().take(it.index() as int),
            it.seq() == s@,
    {
        v.push(c);
    }
    v
}


/// Every character of `s` is a decimal digit.
pub open spec fn is_digits(s: Seq<char>) -> bool {
    forall|i: int| 0 <= i < s.len() ==> is_digit(#[trigger] s[i])
}

/// `s` is a number: one decimal digit or more, and nothing else.
pub open spec fn is_number(s: Seq<char>) -> bool {
    s.len() > 0 && is_digits(s)
}

/// The number that the digits `s` spell in base ten; 0 for no digits.
pub open spec fn decimal_value(s: Seq<char>) -> nat
    decreases s.len(),
{
    if s.len() == 0 {
        0
    } else {
        decimal_value(s.drop_last()) * 10 + digit_value(s.last())
    }
}

/// The value of the number `s` where it is one and does not exceed `limit`.
pub open spec fn bounded_value(s: Seq<char>, limit: nat) -> Option<nat> {
    if is_number(s) && decimal_value(s) <= limit {
        Some(decimal_value(s))
    } else {
        None
    }
}

/// A number is worth at least as much as any of its prefixes.
pub proof fn lemma_decimal_value_prefix(s: Seq<char>, k: int)
    requires
        0 <= k <= s.len(),
    ensures
        decimal_value(s.take(k)) <= decimal_value(s),
    decreases s.len() - k,
{
    if k == s.len() {
        assert(s.take(k) =~= s);
    } else {
        lemma_decimal_value_prefix(s.drop_last(), k);
        assert(s.drop_last().take(k) =~= s.take(k));
    }
}

/// Reads the characters of `chars` from `from` on as a number that does not
/// exceed `limit`.
pub fn read_number(chars: &Vec<char>, from: usize, limit: u32) -> (value: Option<u32>)
    requires
        from <= chars.len(),
    ensures
        match value {
            Some(v) => bounded_value(chars@.skip(from as int), limit as nat) == Some(v as nat),
            None => bounded_value(chars@.skip(from as int), limit as nat) is None,
        },
{
    let ghost text = chars@.skip(from as int);
    let mut value: u32 = 0;
    let mut i: usize = from;
    while i < chars.len()
        invariant
            from <= i <= chars.len(),
            text == chars@.skip(from as int),
            value <= limit,
            value == decimal_value(text.take(i - from)),
            is_digits(text.take(i - from)),
        decreases chars.len() - i,
    {
        let c = chars[i];
        if !char_is_digit(c) {
            assert(!is_digit(text[i - from]));
            return None;
        }
        let digit: u32 = c as u32 - '0' as u32;
        proof {
            let longer = text.take(i - from + 1);
            assert(longer.drop_last() =~= text.take(i - from));
            assert(longer.last() == c);
            assert(is_digits(longer));
            assert(decimal_value(longer) == value * 10 + digit);
            lemma_decimal_value_prefix(text, i - from + 1);
        }
        let next: u64 = value as u64 * 10 + digit as u64;
        if next > limit as u64 {
            return None;
        }
        value = next as u32;
        i += 1;
    }
    assert(text.take(i - from) =~= text);
    if i == from {
        None
    } else {
        Some(value)
    }
}

/// The value of `lexeme` as a literal of a 32-bit signed integer: its value
/// where it is a number that fits, and nothing otherwise.
pub open spec fn literal_value(lexeme: Seq<char>) -> Option<i32> {
    match bounded_value(lexeme, i32::MAX as nat) {
        Some(v) => Some(v as i32),
        None => None,
    }
}

/// Reads `txt` as a literal of a 32-bit signed integer.
pub fn parse_literal(txt: &str) -> (value: Option<i32>)
    ensures
        value == literal_value(txt@),
{
    let chars = chars_of(txt);
    assert(chars@.skip(0) =~= txt@);
    match read_number(&chars, 0, 0x7fff_ffff) {
        Some(v) => Some(v as i32),
        None => None,
    }
}

/// `s` is a number that fits in a byte, a plus sign in front allowed.
pub open spec fn is_byte_literal(s: Seq<char>) -> bool {
    if s.len() > 0 && s[0] == '+' {
        bounded_value(s.skip(1), 255) is Some
    } else {
        bounded_value(s, 255) is Some
    }
}

/// Tells whether `txt` reads as a number from 0 to 255: decimal digits,
/// with or without a plus sign in front.
pub fn is_numeric(txt: &String) -> (b: bool)
    ensures
        b == is_byte_literal(txt@),
{
    let chars = chars_of(txt.as_str());
    assert(chars@.skip(0) =~= txt@);
    let from: usize = if chars.len() > 0 && chars[0] == '+' {
        1
    } else {
        0
    };
    read_number(&chars, from, 255).is_some()
}

/// Tells whether `txt` holds a letter.
pub fn is_alphabetic(txt: &String) -> (b: bool)
    ensures
        b == exists|i: int| 0 <= i < txt@.len() && is_letter(#[trigger] txt@[i]),
{
    let chars = chars_of(txt.as_str());
    let mut i: usize = 0;
    while i < chars.len()
        invariant
            i <= chars.len(),
            chars@ == txt@,
            forall|j: int| 0 <= j < i ==> !is_letter(#[trigger] chars@[j]),
        decreases chars.len() - i,
    {
        if char_is_letter(chars[i]) {
            return true;
        }
        i += 1;
    }
    false
}


/// The character that writes the digit `d`.
pub open spec fn digit_char(d: nat) -> char
    recommends
        d < 10,
{
    if d == 0 {
        '0'
    } else if d == 1 {
        '1'
    } else if d == 2 {
        '2'
    } else if d == 3 {
        '3'
    } else if d == 4 {
        '4'
    } else if d == 5 {
        '5'
    } else if d == 6 {
        '6'
    } else if d == 7 {
        '7'
    } else if d == 8 {
        '8'
    } else {
        '9'
    }
}

/// The digits that write `n` in base ten, without leading zeros.
pub open spec fn decimal_digits(n: nat) -> Seq<char>
    decreases n,
{
    if n < 10 {
        seq![digit_char(n)]
    } else {
        decimal_digits(n / 10).push(digit_char(n % 10))
    }
}

/// What is written is read back: the digits of `n` are a number worth `n`.
pub proof fn lemma_decimal_round_trip(n: nat)
    ensures
        is_number(decimal_digits(n)),
        decimal_value(decimal_digits(n)) == n,
    decreases n,
{
    let digits = decimal_digits(n);
    if n < 10 {
        assert(digits.drop_last() =~= Seq::<char>::empty());
        assert(decimal_value(digits.drop_last()) == 0);
    } else {
        lemma_decimal_round_trip(n / 10);
        assert(digits.drop_last() =~= decimal_digits(n / 10));
        assert forall|i: int| 0 <= i < digits.len() implies is_digit(#[trigger] digits[i]) by {
            if i < digits.len() - 1 {
                assert(digits[i] == decimal_digits(n / 10)[i]);
            }
        }
    }
}

/// The text of one digit.
fn digit_text(d: u8) -> (text: &'static str)
    requires
        d < 10,
    ensures
        text@ == seq![digit_char(d as nat)],
{
    proof {
        reveal_strlit("0");
        reveal_strlit("1");
        reveal_strlit("2");
        reveal_strlit("3");
        reveal_strlit("4");
        reveal_strlit("5");
        reveal_strlit("6");
        reveal_strlit("7");
        reveal_strlit("8");
        reveal_strlit("9");
    }
    let text = if d == 0 {
        "0"
    } else if d == 1 {
        "1"
    } else if d == 2 {
        "2"
    } else if d == 3 {
        "3"
    } else if d == 4 {
        "4"
    } else if d == 5 {
        "5"
    } else if d == 6 {
        "6"
    } else if d == 7 {
        "7"
    } else if d == 8 {
        "8"
    } else {
        "9"
    };
    assert(text@ =~= seq![digit_char(d as nat)]);
    text
}

/// Writes `n` in base ten.
pub fn decimal_string(n: u64) -> (text: String)
    ensures
        text@ == decimal_digits(n as nat),
    decreases n,
{
    if n < 10 {
        String::from_str(digit_text(n as u8))
    } else {
        let mut text = decimal_string(n / 10);
        text.append(digit_text((n % 10) as u8));
        assert(text@ =~= decimal_digits(n as nat));
        text
    }
}

/// The text that writes the integer `v`: a minus sign where it is
/// negative, then the digits of its size.
pub open spec fn signed_digits(v: int) -> Seq<char> {
    if v < 0 {
        seq!['-'] + decimal_digits((-v) as nat)
    } else {
        decimal_digits(v as nat)
    }
}

/// Writes `v` in base ten, with a minus sign where it is negative.
pub fn signed_string(v: i32) -> (text: String)
    ensures
        text@ == signed_digits(v as int),
{
    if v < 0 {
        let size: u64 = (-(v as i64)) as u64;
        let mut text = String::from_str("-");
        proof {
            reveal_strlit("-");
        }
        let digits = decimal_string(size);
        text.append(digits.as_str());
        assert(text@ =~= signed_digits(v as int));
        text
    } else {
        decimal_string(v as u64)
    }
}

} // verus!
