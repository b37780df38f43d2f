//! RGBA colors and the hex color string parser.

use vstd::prelude::*;

use crate::EngineError;

verus! {

/// An 8-bit RGBA color, compared and copied by value.
#[derive(Debug, Clone, Copy, PartialEq, Eq, Structural)]
pub struct Color {
    pub r: u8,
    pub g: u8,
    pub b: u8,
    pub a: u8,
}

/// The value of one hex digit, case-insensitive; `None` for any other character.
pub open spec fn hex_digit_spec(c: char) -> Option<u8> {
    if '0' <= c && c <= '9' {
        Some((c as u8 - '0' as u8) as u8)
    } else if 'a' <= c && c <= 'f' {
        Some((c as u8 - 'a' as u8 + 10) as u8)
    } else if 'A' <= c && c <= 'F' {
        Some((c as u8 - 'A' as u8 + 10) as u8)
    } else {
        None
    }
}

/// Reads one hex digit.
pub fn hex_digit(c: char) -> (r: Option<u8>)
    ensures
        r == hex_digit_spec(c),
{
    if '0' <= c && c <= '9' {
        Some(c as u8 - '0' as u8)
    } else if 'a' <= c && c <= 'f' {
        Some(c as u8 - 'a' as u8 + 10)
    } else if 'A' <= c && c <= 'F' {
        Some(c as u8 - 'A' as u8 + 10)
    } else {
        None
    }
}

/// The byte named by two hex digits, high nibble first.
pub open spec fn hex_byte_spec(hi: char, lo: char) -> Option<u8> {
    match (hex_digit_spec(hi), hex_digit_spec(lo)) {
        (Some(h), Some(l)) => Some((h * 16 + l) as u8),
        _ => None,
    }
}

/// Reads one byte from two hex digits.
pub fn hex_byte(hi: char, lo: char) -> (r: Option<u8>)
    ensures
        r == hex_byte_spec(hi, lo),
{
    match (hex_digit(hi), hex_digit(lo)) {
        (Some(h), Some(l)) => Some(h * 16 + l),
        _ => None,
    }
}

/// A hex color string, after case-insensitive removal of a leading `#` or `0x`.
pub open spec fn strip_prefix_spec(s: Seq<char>) -> Seq<char> {
    if s.len() >= 1 && s[0] == '#' {
        s.skip(1)
    } else if s.len() >= 2 && s[0] == '0' && (s[1] == 'x' || s[1] == 'X') {
        s.skip(2)
    } else {
        s
    }
}

/// The color named by a prefix-stripped hex string. Lengths 3 (`RGB`) and
/// 4 (`RGBA`) expand each digit `d` to the byte `d * 17` (nibble replication);
/// lengths 6 (`RRGGBB`) and 8 (`RRGGBBAA`) read byte pairs. Without an alpha
/// component the color is fully opaque. Any other length, or any non-hex
/// character, names no color.
pub open spec fn parse_hex_digits_spec(t: Seq<char>) -> Option<Color> {
    if t.len() == 3 {
        match (hex_digit_spec(t[0]), hex_digit_spec(t[1]), hex_digit_spec(t[2])) {
            (Some(r), Some(g), Some(b)) => Some(
                Color { r: (r * 17) as u8, g: (g * 17) as u8, b: (b * 17) as u8, a: 255 },
            ),
            _ => None,
        }
    } else if t.len() == 4 {
        match (
            hex_digit_spec(t[0]),
            hex_digit_spec(t[1]),
            hex_digit_spec(t[2]),
            hex_digit_spec(t[3]),
        ) {
            (Some(r), Some(g), Some(b), Some(a)) => Some(
                Color { r: (r * 17) as u8, g: (g * 17) as u8, b: (b * 17) as u8, a: (a * 17) as u8 },
            ),
            _ => None,
        }
    } else if t.len() == 6 {
        match (hex_byte_spec(t[0], t[1]), hex_byte_spec(t[2], t[3]), hex_byte_spec(t[4], t[5])) {
            (Some(r), Some(g), Some(b)) => Some(Color { r, g, b, a: 255 }),
            _ => None,
        }
    } else if t.len() == 8 {
        match (
            hex_byte_spec(t[0], t[1]),
            hex_byte_spec(t[2], t[3]),
            hex_byte_spec(t[4], t[5]),
            hex_byte_spec(t[6], t[7]),
        ) {
            (Some(r), Some(g), Some(b), Some(a)) => Some(Color { r, g, b, a }),
            _ => None,
        }
    } else {
        None
    }
}

/// The color named by a hex color string, or `None` where the string is invalid.
pub open spec fn parse_hex_spec(s: Seq<char>) -> Option<Color> {
    parse_hex_digits_spec(strip_prefix_spec(s))
}

/// An ASCII uppercase letter folded to lowercase; any other character is
/// unchanged. The hex alphabet and the prefixes are ASCII, so normalizing
/// case means folding these letters alone.
pub open spec fn lower_char_spec(c: char) -> char {
    if 'A' <= c && c <= 'Z' {
        ((c as u8) + 32) as char
    } else {
        c
    }
}

/// A string with every ASCII uppercase letter folded to lowercase.
pub open spec fn lower_seq_spec(s: Seq<char>) -> Seq<char> {
    Seq::new(s.len(), |i: int| lower_char_spec(s[i]))
}

/// The offending text that an invalid input is reported with: the input
/// without its prefix, lowercased.
pub open spec fn offending_spec(s: Seq<char>) -> Seq<char> {
    lower_seq_spec(strip_prefix_spec(s))
}

/// Folds one character to lowercase.
fn lower_char(c: char) -> (r: char)
    ensures
        r == lower_char_spec(c),
{
    if 'A' <= c && c <= 'Z' {
        ((c as u8) + 32) as char
    } else {
        c
    }
}

/// Builds the offending text of an invalid input: the characters from
/// `start` on, lowercased.
fn offending_string(chars: &Vec<char>, start: usize) -> (r: String)
    requires
        start <= chars@.len(),
    ensures
        r@ == lower_seq_spec(chars@.skip(start as int)),
{
    let ghost rest = chars@.skip(start as int);
    let mut out = String::new();
    let mut i: usize = start;
    proof {
        assert(out@ =~= lower_seq_spec(rest).take(0));
    }
    while i < chars.len()
        invariant
            start <= i <= chars@.len(),
            rest == chars@.skip(start as int),
            out@ == lower_seq_spec(rest).take(i - start),
        decreases chars@.len() - i,
    {
        let c = lower_char(chars[i]);
        crate::text::push_char(&mut out, c);
        i = i + 1;
        proof {
            assert(out@ =~= lower_seq_spec(rest).take(i - start));
        }
    }
    proof {
        assert(lower_seq_spec(rest).take(i - start) =~= lower_seq_spec(rest));
    }
    out
}

/// Parses a user-supplied hex color string into a color.
///
/// Accepts an optional `#` or `0x`/`0X` prefix, then 3, 4, 6 or 8 hex digits
/// of either case. Every other input fails with `InvalidColor` carrying the
/// offending string: the input without its prefix, lowercased.
pub fn parse_hex_color(input: &str) -> (r: Result<Color, EngineError>)
    ensures
        match r {
            Ok(c) => parse_hex_spec(input@) == Some(c),
            Err(e) => parse_hex_spec(input@) is None && (e matches EngineError::InvalidColor(s)
                && s@ == offending_spec(input@)),
        },
{
    let chars = crate::text::str_chars(input);
    let start: usize = if chars.len() >= 1 && chars[0] == '#' {
        1
    } else if chars.len() >= 2 && chars[0] == '0' && (chars[1] == 'x' || chars[1] == 'X') {
        2
    } else {
        0
    };
    let ghost t = strip_prefix_spec(input@);
    proof {
        assert(t =~= chars@.skip(start as int));
    }
    let n = chars.len() - start;
    if n == 3 {
        match (hex_digit(chars[start]), hex_digit(chars[start + 1]), hex_digit(chars[start + 2])) {
            (Some(r), Some(g), Some(b)) => Ok(
                Color { r: r * 17, g: g * 17, b: b * 17, a: 255 },
            ),
            _ => Err(EngineError::InvalidColor(offending_string(&chars, start))),
        }
    } else if n == 4 {
        match (
            hex_digit(chars[start]),
            hex_digit(chars[start + 1]),
            hex_digit(chars[start + 2]),
            hex_digit(chars[start + 3]),
        ) {
            (Some(r), Some(g), Some(b), Some(a)) => Ok(
                Color { r: r * 17, g: g * 17, b: b * 17, a: a * 17 },
            ),
            _ => Err(EngineError::InvalidColor(offending_string(&chars, start))),
        }
    } else if n == 6 {
        match (
            hex_byte(chars[start], chars[start + 1]),
            hex_byte(chars[start + 2], chars[start + 3]),
            hex_byte(chars[start + 4], chars[start + 5]),
        ) {
            (Some(r), Some(g), Some(b)) => Ok(Color { r, g, b, a: 255 }),
            _ => Err(EngineError::InvalidColor(offending_string(&chars, start))),
        }
    } else if n == 8 {
        match (
            hex_byte(chars[start], chars[start + 1]),
            hex_byte(chars[start + 2], chars[start + 3]),
            hex_byte(chars[start + 4], chars[start + 5]),
            hex_byte(chars[start + 6], chars[start + 7]),
        ) {
            (Some(r), Some(g), Some(b), Some(a)) => Ok(Color { r, g, b, a }),
            _ => Err(EngineError::InvalidColor(offending_string(&chars, start))),
        }
    } else {
        Err(EngineError::InvalidColor(offending_string(&chars, start)))
    }
}

/// Exactly one prefix is stripped: putting `#` or `0x` before a string that
/// carries no prefix of its own changes neither the color it names nor the
/// offending text it is reported with.
pub proof fn lemma_prefix_insensitive(s: Seq<char>)
    requires
        strip_prefix_spec(s) == s,
    ensures
        parse_hex_spec(seq!['#'] + s) == parse_hex_spec(s),
        parse_hex_spec(seq!['0', 'x'] + s) == parse_hex_spec(s),
        offending_spec(seq!['#'] + s) == offending_spec(s),
        offending_spec(seq!['0', 'x'] + s) == offending_spec(s),
{
    assert((seq!['#'] + s)[0] == '#');
    assert((seq!['#'] + s).skip(1) =~= s);
    assert((seq!['0', 'x'] + s)[0] == '0' && (seq!['0', 'x'] + s)[1] == 'x');
    assert((seq!['0', 'x'] + s).skip(2) =~= s);
}

/// Case does not matter: a string and its lowercased form name the same color,
/// fail together, and are reported with the same offending text.
pub proof fn lemma_case_insensitive(s: Seq<char>)
    ensures
        parse_hex_spec(lower_seq_spec(s)) == parse_hex_spec(s),
        offending_spec(lower_seq_spec(s)) == offending_spec(s),
{
    let l = lower_seq_spec(s);
    assert(l.len() == s.len());
    assert(forall|i: int|
        0 <= i < s.len() ==> hex_digit_spec(#[trigger] l[i]) == hex_digit_spec(s[i]));
    if s.len() >= 1 && s[0] == '#' {
        assert(l[0] == '#');
        assert(strip_prefix_spec(l) =~= lower_seq_spec(strip_prefix_spec(s)));
    } else if s.len() >= 2 && s[0] == '0' && (s[1] == 'x' || s[1] == 'X') {
        assert(l[0] == '0' && l[1] == 'x');
        assert(strip_prefix_spec(l) =~= lower_seq_spec(strip_prefix_spec(s)));
    } else {
        assert(s.len() >= 1 ==> l[0] != '#');
        assert(s.len() >= 2 && l[0] == '0' ==> (l[1] != 'x' && l[1] != 'X'));
        assert(strip_prefix_spec(l) =~= l);
    }
    let t = strip_prefix_spec(s);
    let lt = strip_prefix_spec(l);
    assert(lt =~= lower_seq_spec(t));
    assert(forall|i: int|
        0 <= i < t.len() ==> hex_digit_spec(#[trigger] lt[i]) == hex_digit_spec(t[i]));
    assert(parse_hex_digits_spec(lt) == parse_hex_digits_spec(t));
    assert(lower_seq_spec(lt) =~= lower_seq_spec(t));
}

/// Totality on valid inputs: a prefix-stripped string of 3, 4, 6 or 8 hex
/// digits always names a color.
pub proof fn lemma_valid_hex_total(t: Seq<char>)
    requires
        t.len() == 3 || t.len() == 4 || t.len() == 6 || t.len() == 8,
        forall|i: int| 0 <= i < t.len() ==> hex_digit_spec(#[trigger] t[i]) is Some,
    ensures
        parse_hex_digits_spec(t) is Some,
        parse_hex_spec(t) is Some,
{
    assert(hex_digit_spec(t[0]) is Some && hex_digit_spec(t[1]) is Some);
    assert(t[0] != '#' && t[1] != 'x' && t[1] != 'X');
    assert(strip_prefix_spec(t) =~= t);
}

/// Rejection of invalid inputs: a prefix-stripped string of any other length,
/// or one holding any non-hex character, names no color.
pub proof fn lemma_invalid_hex_rejected(t: Seq<char>)
    requires
        !(t.len() == 3 || t.len() == 4 || t.len() == 6 || t.len() == 8) || (exists|i: int|
            0 <= i < t.len() && hex_digit_spec(#[trigger] t[i]) is None),
    ensures
        parse_hex_digits_spec(t) is None,
{
    if t.len() == 3 || t.len() == 4 || t.len() == 6 || t.len() == 8 {
        let i = choose|i: int| 0 <= i < t.len() && hex_digit_spec(#[trigger] t[i]) is None;
        assert(hex_digit_spec(t[i]) is None);
    }
}

/// Doubles each character in place: `F0A` becomes `FF00AA`.
pub open spec fn expand_short_hex(s: Seq<char>) -> Seq<char> {
    Seq::new(2 * s.len(), |i: int| s[i / 2])
}

/// Nibble replication: a short hex color string of 3 or 4 digits names
/// exactly the color of its expanded form, in which every digit is written
/// twice, and always names one.
pub proof fn lemma_short_hex_expansion(s: Seq<char>)
    requires
        s.len() == 3 || s.len() == 4,
        forall|i: int| 0 <= i < s.len() ==> hex_digit_spec(#[trigger] s[i]) is Some,
    ensures
        parse_hex_spec(s) is Some,
        parse_hex_spec(expand_short_hex(s)) == parse_hex_spec(s),
{
    let e = expand_short_hex(s);
    assert(hex_digit_spec(s[0]) is Some);
    assert(s[0] != '#' && s[1] != 'x' && s[1] != 'X');
    assert(strip_prefix_spec(s) =~= s);
    assert(e[0] == s[0] && e[1] == s[0]);
    assert(e[1] != 'x' && e[1] != 'X') by {
        if s[0] == 'x' || s[0] == 'X' {
            assert(hex_digit_spec(s[0]) is None);
        }
    }
    assert(strip_prefix_spec(e) =~= e);
    assert(forall|i: int| 0 <= i < e.len() ==> #[trigger] e[i] == s[i / 2]);
}

} // verus!
