//! Small things that the rest of the library shares.

use vstd::prelude::*;
use vstd::string::*;

verus! {

/// The modifiers in the state of a key or a button, as the window
/// protocol numbers them.
pub const SHIFT_MASK: u32 = 0x01;

pub const LOCK_MASK: u32 = 0x02;

pub const CONTROL_MASK: u32 = 0x04;

pub const MOD1_MASK: u32 = 0x08;

pub const MOD2_MASK: u32 = 0x10;

pub const MOD3_MASK: u32 = 0x20;

pub const MOD4_MASK: u32 = 0x40;

pub const MOD5_MASK: u32 = 0x80;

/// The modifiers that count when a key is looked up.
pub open spec fn counted_modifiers() -> u32 {
    MOD1_MASK | MOD2_MASK | MOD3_MASK | MOD4_MASK | MOD5_MASK | SHIFT_MASK | CONTROL_MASK
}

/// The state of a key without the lock modifier and without anything
/// that is not a modifier of the keyboard.
pub fn clean_mask(keycode: u32) -> (mask: u32)
    ensures
        mask == keycode & !LOCK_MASK & counted_modifiers(),
{
    keycode & !LOCK_MASK & (MOD1_MASK | MOD2_MASK | MOD3_MASK | MOD4_MASK | MOD5_MASK | SHIFT_MASK
        | CONTROL_MASK)
}

/// The first `max_chars` characters of the text; the whole text if it has no more.
pub open spec fn truncated(s: Seq<char>, max_chars: nat) -> Seq<char> {
    if max_chars < s.len() {
        s.take(max_chars as int)
    } else {
        s
    }
}

pub fn truncate<'a>(s: &'a str, max_chars: usize) -> (t: &'a str)
    ensures
        t@ == truncated(s@, max_chars as nat),
{
    if max_chars < s.unicode_len() {
        s.substring_char(0, max_chars)
    } else {
        s
    }
}

/// The errors and the requests of the window protocol that `xerror` knows.
pub const BAD_WINDOW: u8 = 3;

pub const BAD_MATCH: u8 = 8;

pub const BAD_DRAWABLE: u8 = 9;

pub const BAD_ACCESS: u8 = 10;

pub const X_CONFIGURE_WINDOW: u8 = 12;

pub const X_GRAB_BUTTON: u8 = 28;

pub const X_GRAB_KEY: u8 = 33;

pub const X_SET_INPUT_FOCUS: u8 = 42;

pub const X_COPY_AREA: u8 = 62;

pub const X_POLY_SEGMENT: u8 = 66;

pub const X_POLY_FILL_RECTANGLE: u8 = 70;

pub const X_POLY_TEXT8: u8 = 74;

/// Whether an error of the display may be passed over: a window that is
/// gone, or a request that came too late for its window. Every other
/// error means that the manager no longer knows the state of the display.
pub open spec fn harmless(request_code: u8, error_code: u8) -> bool {
    ||| error_code == BAD_WINDOW
    ||| (request_code == X_SET_INPUT_FOCUS && error_code == BAD_MATCH)
    ||| (request_code == X_POLY_TEXT8 && error_code == BAD_DRAWABLE)
    ||| (request_code == X_POLY_FILL_RECTANGLE && error_code == BAD_DRAWABLE)
    ||| (request_code == X_POLY_SEGMENT && error_code == BAD_DRAWABLE)
    ||| (request_code == X_CONFIGURE_WINDOW && error_code == BAD_MATCH)
    ||| (request_code == X_GRAB_BUTTON && error_code == BAD_ACCESS)
    ||| (request_code == X_GRAB_KEY && error_code == BAD_ACCESS)
    ||| (request_code == X_COPY_AREA && error_code == BAD_DRAWABLE)
}

/// Judges an error of the display: `true` if the manager goes on.
pub fn xerror(request_code: u8, error_code: u8) -> (go_on: bool)
    ensures
        go_on == harmless(request_code, error_code),
{
    error_code == BAD_WINDOW || (request_code == X_SET_INPUT_FOCUS && error_code == BAD_MATCH) || (
    request_code == X_POLY_TEXT8 && error_code == BAD_DRAWABLE) || (request_code
        == X_POLY_FILL_RECTANGLE && error_code == BAD_DRAWABLE) || (request_code == X_POLY_SEGMENT
        && error_code == BAD_DRAWABLE) || (request_code == X_CONFIGURE_WINDOW && error_code
        == BAD_MATCH) || (request_code == X_GRAB_BUTTON && error_code == BAD_ACCESS) || (
    request_code == X_GRAB_KEY && error_code == BAD_ACCESS) || (request_code == X_COPY_AREA
        && error_code == BAD_DRAWABLE)
}

/// `String::push` of the standard library: the character is added at
/// the end of the text, and nothing else changes.
#[verifier::external_body]
pub(crate) fn push_char(s: &mut String, c: char)
    ensures
        final(s)@ == old(s)@.push(c),
{
    s.push(c);
}

/// The character of a digit.
pub open spec fn digit(d: nat) -> char {
    ((48 + d) as u8) as char
}

/// The number in decimal digits.
pub open spec fn digits(n: nat) -> Seq<char>
    decreases n,
{
    if n < 10 {
        seq![digit(n)]
    } else {
        digits(n / 10).push(digit(n % 10))
    }
}

/// The number written in decimal digits.
pub fn decimal(n: u64) -> (text: String)
    ensures
        text@ == digits(n as nat),
{
    let mut reversed: Vec<char> = Vec::new();
    let mut rest: u64 = n;
    while rest >= 10
        invariant
            digits(n as nat) == digits(rest as nat) + reversed@.reverse(),
        decreases rest,
    {
        let d = (rest % 10) as u8;
        let ghost before = reversed@;
        reversed.push((48 + d) as char);
        proof {
            let c = digit((rest % 10) as nat);
            assert(reversed@.reverse() =~= seq![c] + before.reverse());
            assert(digits((rest / 10) as nat).push(c) + before.reverse() =~= digits(
                (rest / 10) as nat,
            ) + reversed@.reverse());
        }
        rest = rest / 10;
    }
    let mut text = String::new();
    push_char(&mut text, (48 + rest as u8) as char);
    let mut i: usize = reversed.len();
    while i > 0
        invariant
            i <= reversed@.len(),
            text@ == digits(rest as nat) + reversed@.reverse().take(reversed@.len() - i),
        decreases i,
    {
        i -= 1;
        push_char(&mut text, reversed[i]);
        assert(text@ =~= digits(rest as nat) + reversed@.reverse().take(reversed@.len() - i));
    }
    assert(reversed@.reverse().take(reversed@.len() as int) =~= reversed@.reverse());
    text
}

/// Whether the character is white space.
pub open spec fn is_space(c: char) -> bool {
    let n = c as u32;
    ||| 0x09 <= n <= 0x0d
    ||| n == 0x20
    ||| n == 0x85
    ||| n == 0xa0
    ||| n == 0x1680
    ||| 0x2000 <= n <= 0x200a
    ||| n == 0x2028
    ||| n == 0x2029
    ||| n == 0x202f
    ||| n == 0x205f
    ||| n == 0x3000
}

/// The number of characters at the beginning of the text that are white space.
pub open spec fn leading_spaces(s: Seq<char>) -> nat
    decreases s.len(),
{
    if s.len() > 0 && is_space(s[0]) {
        1 + leading_spaces(s.skip(1))
    } else {
        0
    }
}

/// The number of characters at the end of the text that are white space.
pub open spec fn trailing_spaces(s: Seq<char>) -> nat
    decreases s.len(),
{
    if s.len() > 0 && is_space(s.last()) {
        1 + trailing_spaces(s.drop_last())
    } else {
        0
    }
}

/// The text without the white space at its beginning and at its end.
pub open spec fn trimmed(s: Seq<char>) -> Seq<char> {
    let rest = s.skip(leading_spaces(s) as int);
    rest.take(rest.len() - trailing_spaces(rest))
}

pub proof fn lemma_leading_spaces(s: Seq<char>, n: int)
    requires
        0 <= n <= s.len(),
        forall|i: int| 0 <= i < n ==> is_space(s[i]),
        n == s.len() || !is_space(s[n]),
    ensures
        leading_spaces(s) == n,
    decreases n,
{
    if n > 0 {
        let rest = s.skip(1);
        assert forall|i: int| 0 <= i < n - 1 implies is_space(rest[i]) by {
            assert(rest[i] == s[i + 1]);
        }
        if n < s.len() {
            assert(rest[n - 1] == s[n]);
        }
        lemma_leading_spaces(rest, n - 1);
    }
}

pub proof fn lemma_trailing_spaces(s: Seq<char>, n: int)
    requires
        0 <= n <= s.len(),
        forall|i: int| s.len() - n <= i < s.len() ==> is_space(s[i]),
        n == s.len() || !is_space(s[s.len() - n - 1]),
    ensures
        trailing_spaces(s) == n,
    decreases n,
{
    if n > 0 {
        let rest = s.drop_last();
        assert forall|i: int| rest.len() - (n - 1) <= i < rest.len() implies is_space(rest[i]) by {
            assert(rest[i] == s[i]);
        }
        if n < s.len() {
            assert(rest[rest.len() - (n - 1) - 1] == s[s.len() - n - 1]);
        }
        lemma_trailing_spaces(rest, n - 1);
    }
}

fn is_space_char(c: char) -> (b: bool)
    ensures
        b == is_space(c),
{
    let n = c as u32;
    (0x09 <= n && n <= 0x0d) || n == 0x20 || n == 0x85 || n == 0xa0 || n == 0x1680 || (0x2000 <= n
        && n <= 0x200a) || n == 0x2028 || n == 0x2029 || n == 0x202f || n == 0x205f || n == 0x3000
}

/// The text without the white space at its beginning and at its end.
pub fn trim<'a>(s: &'a str) -> (t: &'a str)
    ensures
        t@ == trimmed(s@),
{
    let len = s.unicode_len();
    let mut from: usize = 0;
    while from < len && is_space_char(s.get_char(from))
        invariant
            from <= len,
            len == s@.len(),
            forall|i: int| 0 <= i < from ==> is_space(s@[i]),
        decreases len - from,
    {
        from += 1;
    }
    proof {
        lemma_leading_spaces(s@, from as int);
    }
    let ghost rest = s@.skip(from as int);
    let mut to: usize = len;
    while to > from && is_space_char(s.get_char(to - 1))
        invariant
            from <= to <= len,
            len == s@.len(),
            forall|i: int| to <= i < len ==> is_space(s@[i]),
        decreases to,
    {
        to -= 1;
    }
    proof {
        assert forall|i: int| rest.len() - (len - to) <= i < rest.len() implies is_space(
            rest[i],
        ) by {
            assert(rest[i] == s@[i + from]);
        }
        if len - to < rest.len() {
            assert(rest[rest.len() - (len - to) - 1] == s@[to - 1]);
        }
        lemma_trailing_spaces(rest, (len - to) as int);
        assert(s@.subrange(from as int, to as int) =~= rest.take(rest.len() - (len - to)));
    }
    s.substring_char(from, to)
}

} // verus!
