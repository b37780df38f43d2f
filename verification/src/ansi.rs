//! ANSI color codes: the `;`-delimited payload of an escape sequence and its
//! effect on the parser's persistent color state.

use vstd::prelude::*;

use crate::color::Color;

verus! {

/// The ESC control character that introduces an escape sequence.
pub const ESC: char = '\u{1b}';

/// One character position of the ASCII grid, carrying the colors that were
/// current when it was emitted.
#[derive(Debug, Clone, Copy, PartialEq, Eq)]
pub struct Cell {
    pub ch: char,
    pub fg: Color,
    pub bg: Option<Color>,
}

/// The parser's persistent color state: current foreground and optional
/// background. It carries across characters and lines until changed or reset.
#[derive(Debug, Clone, Copy, PartialEq, Eq)]
pub struct ColorState {
    pub fg: Color,
    pub bg: Option<Color>,
}

/// The effect of one recognized ANSI color code.
#[derive(Debug, Clone, Copy, PartialEq, Eq)]
pub enum AnsiColor {
    Foreground(Color),
    Background(Color),
    Reset,
}

/// The state before any code was seen: opaque white on no background.
pub open spec fn initial_state() -> ColorState {
    ColorState { fg: Color { r: 255, g: 255, b: 255, a: 255 }, bg: None }
}

/// Builds the initial color state.
pub fn default_state() -> (s: ColorState)
    ensures
        s == initial_state(),
{
    ColorState { fg: Color { r: 255, g: 255, b: 255, a: 255 }, bg: None }
}

/// The fields of a code split on `;`. Splitting keeps empty fields, and the
/// empty code has one empty field.
pub open spec fn split_semi_spec(s: Seq<char>) -> Seq<Seq<char>>
    decreases s.len(),
{
    if s.len() == 0 {
        seq![Seq::<char>::empty()]
    } else if s[0] == ';' {
        seq![Seq::<char>::empty()] + split_semi_spec(s.drop_first())
    } else {
        let rest = split_semi_spec(s.drop_first());
        seq![seq![s[0]] + rest[0]] + rest.drop_first()
    }
}

pub proof fn lemma_split_semi_nonempty(s: Seq<char>)
    ensures
        split_semi_spec(s).len() >= 1,
    decreases s.len(),
{
    if s.len() == 0 {
    } else {
        lemma_split_semi_nonempty(s.drop_first());
    }
}

/// `split_semi_spec` of a suffix, shifted into the middle of a running split:
/// the first open field is `cur`.
pub open spec fn split_accum(cur: Seq<char>, sp: Seq<Seq<char>>) -> Seq<Seq<char>>
    recommends
        sp.len() >= 1,
{
    seq![cur + sp[0]] + sp.drop_first()
}

/// Splits a code on `;` into its fields.
pub fn split_semi(code: &Vec<char>) -> (r: Vec<Vec<char>>)
    ensures
        crate::text::views_of(r@) == split_semi_spec(code@),
{
    let mut parts: Vec<Vec<char>> = Vec::new();
    let mut cur: Vec<char> = Vec::new();
    let mut i: usize = 0;
    proof {
        assert(code@.skip(0) =~= code@);
        lemma_split_semi_nonempty(code@);
    }
    while i < code.len()
        invariant
            0 <= i <= code@.len(),
            split_semi_spec(code@.skip(i as int)).len() >= 1,
            split_semi_spec(code@) == crate::text::views_of(parts@) + split_accum(
                cur@,
                split_semi_spec(code@.skip(i as int)),
            ),
        decreases code@.len() - i,
    {
        let c = code[i];
        proof {
            assert(code@.skip(i as int).drop_first() =~= code@.skip(i as int + 1));
            lemma_split_semi_nonempty(code@.skip(i as int + 1));
        }
        let ghost old_parts = parts@;
        let ghost old_cur = cur@;
        let ghost sp_next = split_semi_spec(code@.skip(i as int + 1));
        if c == ';' {
            parts.push(cur);
            cur = Vec::new();
            proof {
                assert(crate::text::views_of(parts@) =~= crate::text::views_of(old_parts).push(
                    old_cur,
                ));
                assert(split_accum(old_cur, split_semi_spec(code@.skip(i as int))) =~~= seq![old_cur]
                    + split_accum(Seq::<char>::empty(), sp_next));
                assert(crate::text::views_of(old_parts) + (seq![old_cur] + split_accum(
                    Seq::<char>::empty(),
                    sp_next,
                )) =~~= crate::text::views_of(parts@) + split_accum(Seq::<char>::empty(), sp_next));
            }
        } else {
            cur.push(c);
            proof {
                assert(split_accum(old_cur, split_semi_spec(code@.skip(i as int))) =~~= split_accum(
                    cur@,
                    sp_next,
                ));
            }
        }
        i = i + 1;
    }
    proof {
        assert(code@.skip(code@.len() as int) =~= Seq::<char>::empty());
        assert(split_accum(cur@, split_semi_spec(code@.skip(i as int))) =~~= seq![cur@]);
    }
    let ghost old_parts = parts@;
    let ghost old_cur = cur@;
    parts.push(cur);
    proof {
        assert(crate::text::views_of(parts@) =~= crate::text::views_of(old_parts).push(old_cur));
        assert(crate::text::views_of(old_parts) + seq![old_cur] =~~= crate::text::views_of(parts@));
    }
    parts
}

/// Whether every character of `s` is a decimal digit.
pub open spec fn all_digits(s: Seq<char>) -> bool {
    forall|i: int| 0 <= i < s.len() ==> '0' <= #[trigger] s[i] && s[i] <= '9'
}

/// The number written by a sequence of decimal digits, most significant first.
pub open spec fn digits_value(s: Seq<char>) -> nat
    recommends
        all_digits(s),
    decreases s.len(),
{
    if s.len() == 0 {
        0
    } else {
        (digits_value(s.drop_last()) * 10 + (s.last() as int - '0' as int)) as nat
    }
}

/// A longer digit string never writes a smaller number.
proof fn lemma_digits_value_prefix(s: Seq<char>, k: int)
    requires
        0 <= k <= s.len(),
        all_digits(s),
    ensures
        digits_value(s) >= digits_value(s.take(k)),
    decreases s.len() - k,
{
    if k < s.len() {
        lemma_digits_value_prefix(s, k + 1);
        assert(s.take(k + 1).drop_last() =~= s.take(k));
        assert(s.take(k + 1).last() == s[k]);
    } else {
        assert(s.take(k) =~= s);
    }
}

/// The unsigned number a code field writes: an optional leading `+`, then one
/// or more decimal digits, with a value of at most 255. Anything else is no
/// number.
pub open spec fn parse_u8_spec(s: Seq<char>) -> Option<u8> {
    let body = if s.len() > 0 && s[0] == '+' {
        s.drop_first()
    } else {
        s
    };
    if body.len() > 0 && all_digits(body) && digits_value(body) <= 255 {
        Some(digits_value(body) as u8)
    } else {
        None
    }
}

/// Reads a code field as an 8-bit unsigned decimal number.
pub fn parse_u8_decimal(s: &Vec<char>) -> (r: Option<u8>)
    ensures
        r == parse_u8_spec(s@),
{
    let start: usize = if s.len() > 0 && s[0] == '+' {
        1
    } else {
        0
    };
    let ghost body = if s@.len() > 0 && s@[0] == '+' {
        s@.drop_first()
    } else {
        s@
    };
    proof {
        assert(body =~= s@.skip(start as int));
    }
    if s.len() == start {
        return None;
    }
    let mut acc: u32 = 0;
    let mut i: usize = start;
    proof {
        assert(body.take(0) =~= Seq::<char>::empty());
    }
    while i < s.len()
        invariant
            start <= i <= s@.len(),
            body == s@.skip(start as int),
            body == (if s@.len() > 0 && s@[0] == '+' {
                s@.drop_first()
            } else {
                s@
            }),
            acc == digits_value(body.take(i - start)),
            acc <= 255,
            all_digits(body.take(i - start)),
        decreases s@.len() - i,
    {
        let c = s[i];
        let ghost k = i - start;
        if c < '0' || c > '9' {
            proof {
                assert(body[k] == c);
                assert(!all_digits(body));
            }
            return None;
        }
        let d: u32 = c as u32 - '0' as u32;
        let v: u32 = acc * 10 + d;
        proof {
            assert(body.take(k + 1).drop_last() =~= body.take(k));
            assert(body.take(k + 1).last() == body[k]);
        }
        if v > 255 {
            proof {
                if all_digits(body) {
                    lemma_digits_value_prefix(body, k + 1);
                }
            }
            return None;
        }
        acc = v;
        i = i + 1;
    }
    proof {
        assert(body.take(i - start) =~= body);
    }
    Some(acc as u8)
}

/// The effect of a code, by its `;`-delimited fields: `38;2;R;G;B` names a
/// foreground, `48;2;R;G;B` a background (each fully opaque, extra fields
/// ignored), a single `0` the reset. Every other code has no effect.
pub open spec fn ansi_code_spec(code: Seq<char>) -> Option<AnsiColor> {
    let parts = split_semi_spec(code);
    if parts.len() >= 5 && parts[0] == seq!['3', '8'] && parts[1] == seq!['2'] {
        match (parse_u8_spec(parts[2]), parse_u8_spec(parts[3]), parse_u8_spec(parts[4])) {
            (Some(r), Some(g), Some(b)) => Some(
                AnsiColor::Foreground(Color { r, g, b, a: 255 }),
            ),
            _ => None,
        }
    } else if parts.len() >= 5 && parts[0] == seq!['4', '8'] && parts[1] == seq!['2'] {
        match (parse_u8_spec(parts[2]), parse_u8_spec(parts[3]), parse_u8_spec(parts[4])) {
            (Some(r), Some(g), Some(b)) => Some(
                AnsiColor::Background(Color { r, g, b, a: 255 }),
            ),
            _ => None,
        }
    } else if parts.len() == 1 && parts[0] == seq!['0'] {
        Some(AnsiColor::Reset)
    } else {
        None
    }
}

/// The color state after one code effect: a foreground or background code
/// replaces that color alone, the reset restores the initial state, and no
/// effect leaves the state as it was.
pub open spec fn apply_action_spec(action: Option<AnsiColor>, st: ColorState) -> ColorState {
    match action {
        Some(AnsiColor::Foreground(c)) => ColorState { fg: c, bg: st.bg },
        Some(AnsiColor::Background(c)) => ColorState { fg: st.fg, bg: Some(c) },
        Some(AnsiColor::Reset) => initial_state(),
        None => st,
    }
}

/// The color state after a whole code.
pub open spec fn apply_code_spec(code: Seq<char>, st: ColorState) -> ColorState {
    apply_action_spec(ansi_code_spec(code), st)
}

/// Unrecognized codes are inert: a code with no effect leaves any color state
/// exactly as it was.
pub proof fn lemma_unknown_code_inert(code: Seq<char>, st: ColorState)
    requires
        ansi_code_spec(code) is None,
    ensures
        apply_code_spec(code, st) == st,
{
}

/// Whether a field consists of exactly one given character.
fn field_is1(p: &Vec<char>, c: char) -> (r: bool)
    ensures
        r == (p@ == seq![c]),
{
    let r = p.len() == 1 && p[0] == c;
    proof {
        if r {
            assert(p@ =~= seq![c]);
        }
    }
    r
}

/// Whether a field consists of exactly two given characters.
fn field_is2(p: &Vec<char>, c0: char, c1: char) -> (r: bool)
    ensures
        r == (p@ == seq![c0, c1]),
{
    let r = p.len() == 2 && p[0] == c0 && p[1] == c1;
    proof {
        if r {
            assert(p@ =~= seq![c0, c1]);
        }
    }
    r
}

/// Interprets one ANSI color code, given without its `ESC [` introducer and
/// its `m` terminator.
pub fn code_action(code: &Vec<char>) -> (r: Option<AnsiColor>)
    ensures
        r == ansi_code_spec(code@),
{
    let parts = split_semi(code);
    let ghost sp = split_semi_spec(code@);
    if parts.len() >= 5 && field_is2(&parts[0], '3', '8') && field_is1(&parts[1], '2') {
        match (
            parse_u8_decimal(&parts[2]),
            parse_u8_decimal(&parts[3]),
            parse_u8_decimal(&parts[4]),
        ) {
            (Some(r), Some(g), Some(b)) => Some(AnsiColor::Foreground(Color { r, g, b, a: 255 })),
            _ => None,
        }
    } else if parts.len() >= 5 && field_is2(&parts[0], '4', '8') && field_is1(&parts[1], '2') {
        match (
            parse_u8_decimal(&parts[2]),
            parse_u8_decimal(&parts[3]),
            parse_u8_decimal(&parts[4]),
        ) {
            (Some(r), Some(g), Some(b)) => Some(AnsiColor::Background(Color { r, g, b, a: 255 })),
            _ => None,
        }
    } else if parts.len() == 1 && field_is1(&parts[0], '0') {
        Some(AnsiColor::Reset)
    } else {
        None
    }
}

/// Applies one code effect to the color state.
pub fn apply_action(action: Option<AnsiColor>, st: ColorState) -> (r: ColorState)
    ensures
        r == apply_action_spec(action, st),
{
    match action {
        Some(AnsiColor::Foreground(c)) => ColorState { fg: c, bg: st.bg },
        Some(AnsiColor::Background(c)) => ColorState { fg: st.fg, bg: Some(c) },
        Some(AnsiColor::Reset) => default_state(),
        None => st,
    }
}

} // verus!
