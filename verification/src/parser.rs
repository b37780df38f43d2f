//! The ANSI stream parser: a single pass over escape-annotated text that
//! emits one colored cell per visible character.
//!
//! An `ESC [` introducer starts an escape sequence, whose code runs to the
//! terminating `m` (or to the end of the line) and is interpreted by
//! [`crate::ansi::apply_code_spec`]. An `ESC` not followed by `[` is
//! unrecognized: it alone is discarded, and the character after it is parsed
//! normally. Color state persists across characters and across lines until
//! changed or reset.

use vstd::prelude::*;

use crate::ansi::{
    apply_action, apply_code_spec, code_action, default_state, initial_state, Cell, ColorState,
    ESC,
};
use crate::text::views_of;

verus! {

/// The index of the first occurrence of `c` in `s`, or a negative value where
/// there is none.
pub open spec fn find_char(s: Seq<char>, c: char) -> int
    decreases s.len(),
{
    if s.len() == 0 {
        -1
    } else if s[0] == c {
        0
    } else {
        let r = find_char(s.drop_first(), c);
        if r < 0 {
            -1
        } else {
            r + 1
        }
    }
}

proof fn lemma_find_char_none(s: Seq<char>, c: char)
    requires
        forall|j: int| 0 <= j < s.len() ==> #[trigger] s[j] != c,
    ensures
        find_char(s, c) == -1,
    decreases s.len(),
{
    if s.len() > 0 {
        lemma_find_char_none(s.drop_first(), c);
    }
}

proof fn lemma_find_char_at(s: Seq<char>, c: char, k: int)
    requires
        0 <= k < s.len(),
        s[k] == c,
        forall|j: int| 0 <= j < k ==> #[trigger] s[j] != c,
    ensures
        find_char(s, c) == k,
    decreases k,
{
    if k > 0 {
        lemma_find_char_at(s.drop_first(), c, k - 1);
    }
}

/// The cells of one line and the color state it leaves behind, from the given
/// starting state.
pub open spec fn parse_line_spec(s: Seq<char>, st: ColorState) -> (Seq<Cell>, ColorState)
    decreases s.len(),
{
    if s.len() == 0 {
        (Seq::<Cell>::empty(), st)
    } else if s[0] != ESC {
        let rest = parse_line_spec(s.drop_first(), st);
        (seq![Cell { ch: s[0], fg: st.fg, bg: st.bg }] + rest.0, rest.1)
    } else if s.len() == 1 {
        (Seq::<Cell>::empty(), st)
    } else if s[1] != '[' {
        parse_line_spec(s.drop_first(), st)
    } else {
        let tail = s.skip(2);
        let m = find_char(tail, 'm');
        if m < 0 || m + 1 > tail.len() {
            (Seq::<Cell>::empty(), apply_code_spec(tail, st))
        } else {
            parse_line_spec(tail.skip(m + 1), apply_code_spec(tail.take(m), st))
        }
    }
}

proof fn lemma_mid_concat(acc: Seq<Cell>, cell: Cell, after: Seq<Cell>)
    ensures
        acc + (seq![cell] + after) == acc.push(cell) + after,
{
    assert(acc + (seq![cell] + after) =~= acc.push(cell) + after);
}

/// One visible character appends a cell carrying the current colors and
/// leaves the state unchanged.
proof fn lemma_step_char(s: Seq<char>, i: int, st: ColorState, acc: Seq<Cell>)
    requires
        0 <= i < s.len(),
        s[i] != ESC,
    ensures
        acc + parse_line_spec(s.skip(i), st).0 == acc.push(
            Cell { ch: s[i], fg: st.fg, bg: st.bg },
        ) + parse_line_spec(s.skip(i + 1), st).0,
        parse_line_spec(s.skip(i), st).1 == parse_line_spec(s.skip(i + 1), st).1,
{
    assert(s.skip(i)[0] == s[i]);
    assert(s.skip(i).drop_first() =~= s.skip(i + 1));
    let cell = Cell { ch: s[i], fg: st.fg, bg: st.bg };
    let after = parse_line_spec(s.skip(i + 1), st).0;
    assert(parse_line_spec(s.skip(i), st).0 == seq![cell] + after);
    lemma_mid_concat(acc, cell, after);
}

/// A trailing ESC with nothing after it is discarded and the line ends.
proof fn lemma_step_esc_end(s: Seq<char>, i: int, st: ColorState)
    requires
        0 <= i < s.len(),
        s[i] == ESC,
        i + 1 == s.len(),
    ensures
        parse_line_spec(s.skip(i), st) == parse_line_spec(s.skip(s.len() as int), st),
{
    assert(s.skip(i)[0] == s[i]);
    assert(s.skip(i).len() == 1);
    assert(s.skip(s.len() as int) =~= Seq::<char>::empty());
}

/// An ESC not followed by `[` is discarded by itself; parsing resumes at the
/// very next character.
proof fn lemma_step_esc_other(s: Seq<char>, i: int, st: ColorState)
    requires
        0 <= i,
        i + 1 < s.len(),
        s[i] == ESC,
        s[i + 1] != '[',
    ensures
        parse_line_spec(s.skip(i), st) == parse_line_spec(s.skip(i + 1), st),
{
    assert(s.skip(i)[0] == s[i]);
    assert(s.skip(i)[1] == s[i + 1]);
    assert(s.skip(i).drop_first() =~= s.skip(i + 1));
}

/// A terminated escape sequence applies its code to the state and parsing
/// resumes after the `m`.
proof fn lemma_step_code_found(s: Seq<char>, i: int, j: int, st: ColorState)
    requires
        0 <= i,
        i + 2 <= j < s.len(),
        s[i] == ESC,
        s[i + 1] == '[',
        s[j] == 'm',
        forall|k: int| i + 2 <= k < j ==> #[trigger] s[k] != 'm',
    ensures
        parse_line_spec(s.skip(i), st) == parse_line_spec(
            s.skip(j + 1),
            apply_code_spec(s.subrange(i + 2, j), st),
        ),
{
    let tail = s.skip(i).skip(2);
    assert(s.skip(i)[0] == s[i]);
    assert(s.skip(i)[1] == s[i + 1]);
    assert(tail =~= s.skip(i + 2));
    let m = j - (i + 2);
    assert(tail[m] == s[j]);
    assert(forall|k: int| 0 <= k < m ==> #[trigger] tail[k] == s[i + 2 + k]);
    lemma_find_char_at(tail, 'm', m);
    assert(tail.take(m) =~= s.subrange(i + 2, j));
    assert(tail.skip(m + 1) =~= s.skip(j + 1));
}

/// An escape sequence that reaches the end of the line without an `m` still
/// applies its accumulated code, and the line ends.
proof fn lemma_step_code_end(s: Seq<char>, i: int, st: ColorState)
    requires
        0 <= i,
        i + 1 < s.len(),
        s[i] == ESC,
        s[i + 1] == '[',
        forall|k: int| i + 2 <= k < s.len() ==> #[trigger] s[k] != 'm',
    ensures
        parse_line_spec(s.skip(i), st) == parse_line_spec(
            s.skip(s.len() as int),
            apply_code_spec(s.skip(i + 2), st),
        ),
{
    let tail = s.skip(i).skip(2);
    assert(s.skip(i)[0] == s[i]);
    assert(s.skip(i)[1] == s[i + 1]);
    assert(tail =~= s.skip(i + 2));
    assert(forall|k: int| 0 <= k < tail.len() ==> #[trigger] tail[k] == s[i + 2 + k]);
    lemma_find_char_none(tail, 'm');
    assert(s.skip(s.len() as int) =~= Seq::<char>::empty());
}

proof fn lemma_cons_len(x: Cell, rest: Seq<Cell>)
    ensures
        (seq![x] + rest).len() == 1 + rest.len(),
{
}

proof fn lemma_concat_empty(a: Seq<Cell>)
    ensures
        a + Seq::<Cell>::empty() == a,
{
    assert(a + Seq::<Cell>::empty() =~= a);
}

/// Parses one line of characters from the given color state; returns the
/// line's cells and the state left for what follows.
pub fn parse_line(chars: &Vec<char>, state: ColorState) -> (r: (Vec<Cell>, ColorState))
    ensures
        r.0@ == parse_line_spec(chars@, state).0,
        r.1 == parse_line_spec(chars@, state).1,
{
    let n = chars.len();
    let mut cells: Vec<Cell> = Vec::new();
    let mut cur = state;
    let mut i: usize = 0;
    proof {
        assert(chars@.skip(0) =~= chars@);
    }
    while i < n
        invariant
            0 <= i <= n,
            n == chars@.len(),
            parse_line_spec(chars@, state).0 == cells@ + parse_line_spec(
                chars@.skip(i as int),
                cur,
            ).0,
            parse_line_spec(chars@, state).1 == parse_line_spec(chars@.skip(i as int), cur).1,
        decreases n - i,
    {
        let c = chars[i];
        if c != ESC {
            let ghost old_cells = cells@;
            cells.push(Cell { ch: c, fg: cur.fg, bg: cur.bg });
            proof {
                lemma_step_char(chars@, i as int, cur, old_cells);
            }
            i = i + 1;
        } else if i + 1 >= n {
            proof {
                lemma_step_esc_end(chars@, i as int, cur);
            }
            i = n;
        } else if chars[i + 1] != '[' {
            proof {
                lemma_step_esc_other(chars@, i as int, cur);
            }
            i = i + 1;
        } else {
            let mut j: usize = i + 2;
            let mut code: Vec<char> = Vec::new();
            proof {
                assert(code@ =~= chars@.subrange(i as int + 2, j as int));
            }
            while j < n && chars[j] != 'm'
                invariant
                    i + 2 <= j <= n,
                    n == chars@.len(),
                    code@ == chars@.subrange(i as int + 2, j as int),
                    forall|k: int| i + 2 <= k < j ==> #[trigger] chars@[k] != 'm',
                decreases n - j,
            {
                code.push(chars[j]);
                j = j + 1;
                proof {
                    assert(code@ =~= chars@.subrange(i as int + 2, j as int));
                }
            }
            let found = j < n;
            proof {
                if found {
                    lemma_step_code_found(chars@, i as int, j as int, cur);
                } else {
                    assert(code@ =~= chars@.skip(i as int + 2));
                    lemma_step_code_end(chars@, i as int, cur);
                }
            }
            let action = code_action(&code);
            cur = apply_action(action, cur);
            if found {
                i = j + 1;
            } else {
                i = n;
            }
        }
    }
    proof {
        assert(chars@.skip(n as int) =~= Seq::<char>::empty());
        lemma_concat_empty(cells@);
    }
    (cells, cur)
}

/// One line with the trailing carriage return of a `\r\n` line break removed.
pub open spec fn strip_cr_spec(s: Seq<char>) -> Seq<char> {
    if s.len() > 0 && s.last() == '\r' {
        s.drop_last()
    } else {
        s
    }
}

/// The lines of a text: split on `\n`, a carriage return directly before a
/// `\n` removed, the final line break optional, and the empty text holding no
/// line at all.
pub open spec fn split_lines_spec(s: Seq<char>) -> Seq<Seq<char>>
    decreases s.len(),
{
    if s.len() == 0 {
        Seq::<Seq<char>>::empty()
    } else {
        let i = find_char(s, '\n');
        if i < 0 || i + 1 > s.len() {
            seq![s]
        } else {
            seq![strip_cr_spec(s.take(i))] + split_lines_spec(s.skip(i + 1))
        }
    }
}

/// A segment closed by a line break becomes one line, and splitting resumes
/// after the break.
proof fn lemma_lines_step_found(s: Seq<char>, i: int, j: int)
    requires
        0 <= i <= j < s.len(),
        s[j] == '\n',
        forall|k: int| i <= k < j ==> #[trigger] s[k] != '\n',
    ensures
        split_lines_spec(s.skip(i)) == seq![strip_cr_spec(s.subrange(i, j))] + split_lines_spec(
            s.skip(j + 1),
        ),
{
    let rem = s.skip(i);
    let m = j - i;
    assert(rem[m] == s[j]);
    assert(forall|k: int| 0 <= k < m ==> #[trigger] rem[k] == s[i + k]);
    lemma_find_char_at(rem, '\n', m);
    assert(rem.take(m) =~= s.subrange(i, j));
    assert(rem.skip(m + 1) =~= s.skip(j + 1));
}

/// A final segment without a line break becomes the last line, kept whole.
proof fn lemma_lines_step_end(s: Seq<char>, i: int)
    requires
        0 <= i < s.len(),
        forall|k: int| i <= k < s.len() ==> #[trigger] s[k] != '\n',
    ensures
        split_lines_spec(s.skip(i)) == seq![s.skip(i)],
{
    let rem = s.skip(i);
    assert(forall|k: int| 0 <= k < rem.len() ==> #[trigger] rem[k] == s[i + k]);
    lemma_find_char_none(rem, '\n');
}

/// Splits a text into its lines.
pub fn split_lines(chars: &Vec<char>) -> (r: Vec<Vec<char>>)
    ensures
        views_of(r@) == split_lines_spec(chars@),
{
    let n = chars.len();
    let mut lines: Vec<Vec<char>> = Vec::new();
    let mut i: usize = 0;
    proof {
        assert(chars@.skip(0) =~= chars@);
    }
    while i < n
        invariant
            0 <= i <= n,
            n == chars@.len(),
            split_lines_spec(chars@) == views_of(lines@) + split_lines_spec(chars@.skip(i as int)),
        decreases n - i,
    {
        let mut j: usize = i;
        let mut seg: Vec<char> = Vec::new();
        proof {
            assert(seg@ =~= chars@.subrange(i as int, j as int));
        }
        while j < n && chars[j] != '\n'
            invariant
                i <= j <= n,
                n == chars@.len(),
                seg@ == chars@.subrange(i as int, j as int),
                forall|k: int| i <= k < j ==> #[trigger] chars@[k] != '\n',
            decreases n - j,
        {
            seg.push(chars[j]);
            j = j + 1;
            proof {
                assert(seg@ =~= chars@.subrange(i as int, j as int));
            }
        }
        let ghost old_lines = lines@;
        if j < n {
            proof {
                lemma_lines_step_found(chars@, i as int, j as int);
            }
            if seg.len() > 0 && seg[seg.len() - 1] == '\r' {
                seg.pop();
                proof {
                    assert(seg@ =~= strip_cr_spec(chars@.subrange(i as int, j as int)));
                }
            }
            proof {
                assert(seg@ == strip_cr_spec(chars@.subrange(i as int, j as int)));
            }
            let ghost segv = seg@;
            let ghost after = split_lines_spec(chars@.skip(j as int + 1));
            lines.push(seg);
            proof {
                crate::text::lemma_views_push(old_lines, lines@.last());
                assert(views_of(old_lines.push(lines@.last())) == views_of(old_lines) + seq![segv]);
                crate::text::lemma_seqs_mid_concat(views_of(old_lines), segv, after);
                assert(views_of(old_lines) + (seq![segv] + after) == views_of(old_lines).push(segv)
                    + after);
                assert(views_of(lines@) =~~= views_of(old_lines).push(segv));
            }
            i = j + 1;
        } else {
            proof {
                lemma_lines_step_end(chars@, i as int);
                assert(seg@ =~= chars@.skip(i as int));
            }
            let ghost segv = seg@;
            lines.push(seg);
            proof {
                crate::text::lemma_views_push(old_lines, lines@.last());
                assert(views_of(lines@) =~~= views_of(old_lines).push(segv));
                crate::text::lemma_seqs_mid_concat(
                    views_of(old_lines),
                    segv,
                    Seq::<Seq<char>>::empty(),
                );
                assert(seq![segv] + Seq::<Seq<char>>::empty() =~~= seq![segv]);
                assert(chars@.skip(n as int) =~= Seq::<char>::empty());
            }
            i = n;
        }
    }
    proof {
        assert(chars@.skip(n as int) =~= Seq::<char>::empty());
        crate::text::lemma_seqs_concat_empty(views_of(lines@));
    }
    lines
}

/// The cells of every line in order, with the color state threaded across
/// lines, and the state left after the last line.
pub open spec fn parse_lines_spec(lines: Seq<Seq<char>>, st: ColorState) -> (
    Seq<Seq<Cell>>,
    ColorState,
)
    decreases lines.len(),
{
    if lines.len() == 0 {
        (Seq::<Seq<Cell>>::empty(), st)
    } else {
        let first = parse_line_spec(lines[0], st);
        let rest = parse_lines_spec(lines.drop_first(), first.1);
        (seq![first.0] + rest.0, rest.1)
    }
}

/// The cell grid of a whole text: its lines, each parsed in turn from the
/// state the previous line left, starting from the initial state.
pub open spec fn parse_text_spec(text: Seq<char>) -> Seq<Seq<Cell>> {
    parse_lines_spec(split_lines_spec(text), initial_state()).0
}

proof fn lemma_parse_lines_step(lv: Seq<Seq<char>>, k: int, st: ColorState, acc: Seq<Seq<Cell>>)
    requires
        0 <= k < lv.len(),
    ensures
        acc + parse_lines_spec(lv.skip(k), st).0 == acc.push(parse_line_spec(lv[k], st).0)
            + parse_lines_spec(lv.skip(k + 1), parse_line_spec(lv[k], st).1).0,
        parse_lines_spec(lv.skip(k), st).1 == parse_lines_spec(
            lv.skip(k + 1),
            parse_line_spec(lv[k], st).1,
        ).1,
{
    assert(lv.skip(k)[0] == lv[k]);
    assert(lv.skip(k).drop_first() =~= lv.skip(k + 1));
    crate::text::lemma_seqs_mid_concat(
        acc,
        parse_line_spec(lv[k], st).0,
        parse_lines_spec(lv.skip(k + 1), parse_line_spec(lv[k], st).1).0,
    );
}

/// Parses a whole ANSI-escaped text into its grid of colored cells: one cell
/// sequence per line, top to bottom, each cell carrying the foreground and
/// optional background that were current where its character stood.
pub fn parse(text: &str) -> (r: Vec<Vec<Cell>>)
    ensures
        views_of(r@) == parse_text_spec(text@),
{
    let chars = crate::text::str_chars(text);
    let lines = split_lines(&chars);
    let ghost lv = views_of(lines@);
    let mut out: Vec<Vec<Cell>> = Vec::new();
    let mut st = default_state();
    let mut k: usize = 0;
    proof {
        assert(lv.skip(0) =~= lv);
    }
    while k < lines.len()
        invariant
            0 <= k <= lines@.len(),
            lv == views_of(lines@),
            lv.len() == lines@.len(),
            parse_lines_spec(lv, initial_state()).0 == views_of(out@) + parse_lines_spec(
                lv.skip(k as int),
                st,
            ).0,
            parse_lines_spec(lv, initial_state()).1 == parse_lines_spec(lv.skip(k as int), st).1,
        decreases lines@.len() - k,
    {
        proof {
            assert(lines@[k as int]@ == lv[k as int]);
        }
        let parsed = parse_line(&lines[k], st);
        let cells = parsed.0;
        let ghost old_out = out@;
        let ghost cellsv = cells@;
        proof {
            lemma_parse_lines_step(lv, k as int, st, views_of(old_out));
        }
        st = parsed.1;
        out.push(cells);
        proof {
            crate::text::lemma_views_push(old_out, out@.last());
            assert(views_of(out@) =~~= views_of(old_out).push(cellsv));
            crate::text::lemma_seqs_mid_concat(
                views_of(old_out),
                cellsv,
                parse_lines_spec(lv.skip(k as int + 1), st).0,
            );
        }
        k = k + 1;
    }
    proof {
        assert(lv.skip(k as int) =~= Seq::<Seq<char>>::empty());
        crate::text::lemma_seqs_concat_empty(views_of(out@));
    }
    out
}

/// The number of visible characters of one line: what the line contributes to
/// the cell grid, whatever the color state.
pub open spec fn visible_count_spec(s: Seq<char>) -> nat {
    parse_line_spec(s, initial_state()).0.len()
}

/// How many cells a line yields never depends on the color state it is parsed
/// from; the state chooses only the colors the cells carry.
pub proof fn lemma_cell_count_state_independent(s: Seq<char>, st1: ColorState, st2: ColorState)
    ensures
        parse_line_spec(s, st1).0.len() == parse_line_spec(s, st2).0.len(),
    decreases s.len(),
{
    if s.len() == 0 {
    } else if s[0] != ESC {
        lemma_cell_count_state_independent(s.drop_first(), st1, st2);
        assert(parse_line_spec(s, st1).0 == seq![Cell { ch: s[0], fg: st1.fg, bg: st1.bg }]
            + parse_line_spec(s.drop_first(), st1).0);
        assert(parse_line_spec(s, st2).0 == seq![Cell { ch: s[0], fg: st2.fg, bg: st2.bg }]
            + parse_line_spec(s.drop_first(), st2).0);
        lemma_cons_len(
            Cell { ch: s[0], fg: st1.fg, bg: st1.bg },
            parse_line_spec(s.drop_first(), st1).0,
        );
        lemma_cons_len(
            Cell { ch: s[0], fg: st2.fg, bg: st2.bg },
            parse_line_spec(s.drop_first(), st2).0,
        );
    } else if s.len() == 1 {
    } else if s[1] != '[' {
        lemma_cell_count_state_independent(s.drop_first(), st1, st2);
    } else {
        let tail = s.skip(2);
        let m = find_char(tail, 'm');
        if m < 0 || m + 1 > tail.len() {
        } else {
            lemma_cell_count_state_independent(
                tail.skip(m + 1),
                apply_code_spec(tail.take(m), st1),
                apply_code_spec(tail.take(m), st2),
            );
        }
    }
}

} // verus!
