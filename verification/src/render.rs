//! The human view: status and label colours, painted text, the visible width
//! of styled text, and markdown rendered for a terminal.

use vstd::prelude::*;

use crate::db::strings_view;
use crate::markdown::{
    markdown_events, markdown_events_of, name_head, tag_kind, tag_kind_of, MdEvent, MdEventV, MdTag,
};
use crate::text::{push_char, push_repeat, repeat};
use crate::style::{
    render_close, render_open, render_reset, reset_code, sgr, style_close, style_open, TextStyle,
};

verus! {

/// A style with only a foreground colour.
pub open spec fn fg_only(n: u8) -> TextStyle {
    TextStyle {
        fg: Some(n),
        bold: false,
        italic: false,
        underline: false,
        invert: false,
        strikethrough: false,
    }
}

/// No colour and no effect.
pub open spec fn plain_style() -> TextStyle {
    TextStyle {
        fg: None,
        bold: false,
        italic: false,
        underline: false,
        invert: false,
        strikethrough: false,
    }
}

/// The colour of a status: open bright green, in-progress bright yellow,
/// blocked bright red, closed bright black, anything else plain.
pub open spec fn status_style_of(status: Seq<char>) -> TextStyle {
    if status == "open"@ {
        fg_only(10)
    } else if status == "in-progress"@ {
        fg_only(11)
    } else if status == "blocked"@ {
        fg_only(9)
    } else if status == "closed"@ {
        fg_only(8)
    } else {
        plain_style()
    }
}

/// A style with only a foreground colour.
pub fn fg_style(n: u8) -> (r: TextStyle)
    requires
        n < 16,
    ensures
        r == fg_only(n),
        r.wf(),
{
    TextStyle { fg: Some(n), bold: false, italic: false, underline: false, invert: false, strikethrough: false }
}

/// No colour and no effect.
pub fn no_style() -> (r: TextStyle)
    ensures
        r == plain_style(),
        r.wf(),
{
    TextStyle { fg: None, bold: false, italic: false, underline: false, invert: false, strikethrough: false }
}

/// The colour of a status.
pub fn status_style(status: &str) -> (r: TextStyle)
    ensures
        r == status_style_of(status@),
        r.wf(),
{
    if crate::text::str_eq(status, "open") {
        fg_style(10)
    } else if crate::text::str_eq(status, "in-progress") {
        fg_style(11)
    } else if crate::text::str_eq(status, "blocked") {
        fg_style(9)
    } else if crate::text::str_eq(status, "closed") {
        fg_style(8)
    } else {
        no_style()
    }
}

/// Labels are bright cyan.
pub fn label_style() -> (r: TextStyle)
    ensures
        r == fg_only(14),
        r.wf(),
{
    fg_style(14)
}

/// Links are bright blue and underlined.
pub open spec fn link_style_of() -> TextStyle {
    TextStyle { underline: true, ..fg_only(12) }
}

/// Links are bright blue and underlined.
pub fn link_style() -> (r: TextStyle)
    ensures
        r == link_style_of(),
        r.wf(),
{
    TextStyle { fg: Some(12), bold: false, italic: false, underline: true, invert: false, strikethrough: false }
}

/// Dimmed text is bright black.
pub fn dim_style() -> (r: TextStyle)
    ensures
        r == fg_only(8),
        r.wf(),
{
    fg_style(8)
}

/// Code blocks: bright black on a dark background, black on a light one.
pub open spec fn code_block_style_of(dark: bool) -> TextStyle {
    if dark {
        fg_only(8)
    } else {
        fg_only(0)
    }
}

/// Code blocks: bright black on a dark background, black on a light one.
pub fn code_block_style(dark: bool) -> (r: TextStyle)
    ensures
        r == code_block_style_of(dark),
        r.wf(),
{
    if dark {
        dim_style()
    } else {
        fg_style(0)
    }
}

/// A style with only the given effects.
pub open spec fn effects_only(bold: bool, italic: bool, invert: bool, strikethrough: bool) -> TextStyle {
    TextStyle { fg: None, bold, italic, underline: false, invert, strikethrough }
}

/// A style with only the given effects.
pub fn effects_style(bold: bool, italic: bool, invert: bool, strikethrough: bool) -> (r: TextStyle)
    ensures
        r == effects_only(bold, italic, invert, strikethrough),
        r.wf(),
{
    TextStyle { fg: None, bold, italic, underline: false, invert, strikethrough }
}

/// Text between the codes that switch a style on and off.
pub open spec fn painted(style: TextStyle, text: Seq<char>) -> Seq<char> {
    style_open(style) + text + style_close(style)
}

/// The style's opening codes, the text, and the style's reset. Padding is
/// the caller's job, so that escape codes never throw off column alignment.
pub fn paint(style: &TextStyle, text: &str) -> (r: String)
    requires
        style.wf(),
    ensures
        r@ == painted(*style, text@),
{
    let mut s = render_open(style);
    s.append(text);
    let close = render_close(style);
    s.append(close.as_str());
    s
}

/// The text in bold.
pub fn paint_title(text: &str) -> (r: String)
    ensures
        r@ == painted(effects_only(true, false, false, false), text@),
{
    paint(&effects_style(true, false, false, false), text)
}

/// The status in its colour.
pub fn paint_status(text: &str) -> (r: String)
    ensures
        r@ == painted(status_style_of(text@), text@),
{
    paint(&status_style(text), text)
}

/// The label text in the label colour.
pub fn paint_label(text: &str) -> (r: String)
    ensures
        r@ == painted(fg_only(14), text@),
{
    paint(&label_style(), text)
}

// ---------------------------------------------------------------------------
// Visible width.

/// The number of characters outside escape sequences, reading from a state
/// in or out of one; an escape sequence runs from ESC to the next `m`.
pub open spec fn plain_count(s: Seq<char>, in_esc: bool) -> nat
    decreases s.len(),
{
    if s.len() == 0 {
        0
    } else if in_esc {
        plain_count(s.drop_first(), s[0] != 'm')
    } else if s[0] == '\x1b' {
        plain_count(s.drop_first(), true)
    } else {
        1 + plain_count(s.drop_first(), false)
    }
}

/// Whether reading `s` from the given state ends inside an escape sequence.
pub open spec fn esc_after(s: Seq<char>, in_esc: bool) -> bool
    decreases s.len(),
{
    if s.len() == 0 {
        in_esc
    } else if in_esc {
        esc_after(s.drop_first(), s[0] != 'm')
    } else {
        esc_after(s.drop_first(), s[0] == '\x1b')
    }
}

/// The number of visible characters: those outside escape sequences.
pub open spec fn visible_len(s: Seq<char>) -> nat {
    plain_count(s, false)
}

/// Counting a concatenation counts the parts, the second from where the
/// first left off.
pub proof fn lemma_plain_count_concat(a: Seq<char>, b: Seq<char>, st: bool)
    ensures
        plain_count(a + b, st) == plain_count(a, st) + plain_count(b, esc_after(a, st)),
        esc_after(a + b, st) == esc_after(b, esc_after(a, st)),
    decreases a.len(),
{
    if a.len() > 0 {
        assert((a + b).drop_first() =~= a.drop_first() + b);
        assert((a + b)[0] == a[0]);
        let next = if st {
            a[0] != 'm'
        } else {
            a[0] == '\x1b'
        };
        lemma_plain_count_concat(a.drop_first(), b, next);
    } else {
        assert(a + b =~= b);
    }
}

/// Characters without `m` inside an escape sequence are all skipped.
proof fn lemma_escape_body(code: Seq<char>)
    requires
        !code.contains('m'),
    ensures
        plain_count(code, true) == 0,
        esc_after(code, true),
    decreases code.len(),
{
    if code.len() > 0 {
        assert(code[0] != 'm');
        assert forall|c: char| code.drop_first().contains(c) implies code.contains(c) by {
            let k = choose|k: int| 0 <= k < code.drop_first().len() && code.drop_first()[k] == c;
            assert(code[k + 1] == c);
        }
        lemma_escape_body(code.drop_first());
    }
}

/// An SGR sequence shows nothing and ends outside an escape sequence,
/// whatever state it is read from.
pub proof fn lemma_sgr_invisible(code: Seq<char>, st: bool)
    requires
        !code.contains('m'),
    ensures
        plain_count(sgr(code), st) == 0,
        !esc_after(sgr(code), st),
{
    let pre = seq!['\x1b', '['];
    let tail = seq!['m'];
    assert(sgr(code) =~= pre + (code + tail));
    lemma_plain_count_concat(pre, code + tail, st);
    lemma_plain_count_concat(code, tail, true);
    lemma_escape_body(code);
    reveal_with_fuel(plain_count, 3);
    reveal_with_fuel(esc_after, 3);
    assert(pre.drop_first().drop_first() =~= Seq::<char>::empty());
    assert(tail.drop_first() =~= Seq::<char>::empty());
}

/// Whether text shows nothing and, read from outside an escape sequence,
/// ends outside one.
pub open spec fn invisible(p: Seq<char>) -> bool {
    plain_count(p, false) == 0 && !esc_after(p, false)
}

proof fn lemma_invisible_concat(a: Seq<char>, b: Seq<char>)
    requires
        invisible(a),
        invisible(b),
    ensures
        invisible(a + b),
{
    lemma_plain_count_concat(a, b, false);
}

proof fn lemma_digit_not_m(d: int)
    requires
        0 <= d < 10,
    ensures
        crate::text::digit(d) != 'm',
{
    let s = seq!['0', '1', '2', '3', '4', '5', '6', '7', '8', '9'];
    assert(s[d] == crate::text::digit(d));
    if d == 0 { assert(s[0] == '0'); } else if d == 1 { assert(s[1] == '1'); } else if d == 2 {
        assert(s[2] == '2');
    } else if d == 3 { assert(s[3] == '3'); } else if d == 4 { assert(s[4] == '4'); } else if d
        == 5 { assert(s[5] == '5'); } else if d == 6 { assert(s[6] == '6'); } else if d == 7 {
        assert(s[7] == '7');
    } else if d == 8 { assert(s[8] == '8'); } else { assert(s[9] == '9'); }
}

proof fn lemma_effect_invisible(on: bool, code: char)
    requires
        code != 'm',
    ensures
        invisible(crate::style::effect_code(on, code)),
{
    if on {
        assert(!seq![code].contains('m')) by {
            if seq![code].contains('m') {
                let k = choose|k: int| 0 <= k < 1 && seq![code][k] == 'm';
            }
        }
        lemma_sgr_invisible(seq![code], false);
    }
}

/// The codes that switch a style on show nothing.
pub proof fn lemma_open_invisible(style: TextStyle)
    requires
        style.wf(),
    ensures
        invisible(style_open(style)),
{
    lemma_effect_invisible(style.bold, '1');
    lemma_effect_invisible(style.italic, '3');
    lemma_effect_invisible(style.underline, '4');
    lemma_effect_invisible(style.invert, '7');
    lemma_effect_invisible(style.strikethrough, '9');
    let e1 = crate::style::effect_code(style.bold, '1');
    let e2 = crate::style::effect_code(style.italic, '3');
    let e3 = crate::style::effect_code(style.underline, '4');
    let e4 = crate::style::effect_code(style.invert, '7');
    let e5 = crate::style::effect_code(style.strikethrough, '9');
    let f = match style.fg {
        Some(n) => sgr(crate::style::fg_code(n)),
        None => Seq::<char>::empty(),
    };
    match style.fg {
        Some(n) => {
            let code = crate::style::fg_code(n);
            let d = if n < 8 { n as int } else { n - 8 };
            lemma_digit_not_m(d);
            assert(!code.contains('m')) by {
                if code.contains('m') {
                    let k = choose|k: int| 0 <= k < code.len() && code[k] == 'm';
                    assert(k == 0 || k == 1);
                }
            }
            lemma_sgr_invisible(code, false);
        },
        None => {},
    }
    lemma_invisible_concat(e1, e2);
    lemma_invisible_concat(e1 + e2, e3);
    lemma_invisible_concat(e1 + e2 + e3, e4);
    lemma_invisible_concat(e1 + e2 + e3 + e4, e5);
    lemma_invisible_concat(e1 + e2 + e3 + e4 + e5, f);
}

/// Painting text leaves its visible width as it was: the style's codes show
/// nothing, whatever the text holds, so padding by visible width aligns
/// styled and plain columns alike.
pub proof fn lemma_paint_keeps_width(style: TextStyle, text: Seq<char>)
    requires
        style.wf(),
    ensures
        visible_len(painted(style, text)) == visible_len(text),
{
    let open = style_open(style);
    let close = style_close(style);
    lemma_open_invisible(style);
    assert(painted(style, text) =~= open + (text + close));
    lemma_plain_count_concat(open, text + close, false);
    lemma_plain_count_concat(text, close, false);
    if !style.is_plain() {
        assert(!seq!['0'].contains('m')) by {
            if seq!['0'].contains('m') {
                let k = choose|k: int| 0 <= k < 1 && seq!['0'][k] == 'm';
            }
        }
        lemma_sgr_invisible(seq!['0'], esc_after(text, false));
    }
}

/// The characters outside escape sequences, reading from a state in or out
/// of one: what a terminal shows of the text.
pub open spec fn shown(s: Seq<char>, in_esc: bool) -> Seq<char>
    decreases s.len(),
{
    if s.len() == 0 {
        Seq::empty()
    } else if in_esc {
        shown(s.drop_first(), s[0] != 'm')
    } else if s[0] == '\x1b' {
        shown(s.drop_first(), true)
    } else {
        seq![s[0]] + shown(s.drop_first(), false)
    }
}

/// Whether `p`, read from outside an escape sequence, shows `q` and ends
/// outside an escape sequence.
pub open spec fn shows_as(p: Seq<char>, q: Seq<char>) -> bool {
    shown(p, false) == q && !esc_after(p, false)
}

/// What a concatenation shows is what the parts show, the second read from
/// where the first left off.
pub proof fn lemma_shown_concat(a: Seq<char>, b: Seq<char>, st: bool)
    ensures
        shown(a + b, st) == shown(a, st) + shown(b, esc_after(a, st)),
    decreases a.len(),
{
    if a.len() > 0 {
        assert((a + b).drop_first() =~= a.drop_first() + b);
        assert((a + b)[0] == a[0]);
        let next = if st {
            a[0] != 'm'
        } else {
            a[0] == '\x1b'
        };
        lemma_shown_concat(a.drop_first(), b, next);
        if !st && a[0] != '\x1b' {
            assert(seq![a[0]] + (shown(a.drop_first(), false) + shown(b, esc_after(a.drop_first(), false)))
                =~= (seq![a[0]] + shown(a.drop_first(), false)) + shown(b, esc_after(a.drop_first(), false)));
        }
    } else {
        assert(a + b =~= b);
        assert(shown(a, st) + shown(b, st) =~= shown(b, st));
    }
}

/// A terminal shows as many characters as the visible width counts.
pub proof fn lemma_shown_len(s: Seq<char>, st: bool)
    ensures
        shown(s, st).len() == plain_count(s, st),
    decreases s.len(),
{
    if s.len() > 0 {
        let next = if st {
            s[0] != 'm'
        } else {
            s[0] == '\x1b'
        };
        lemma_shown_len(s.drop_first(), next);
    }
}

/// Concatenation keeps what each part shows.
pub proof fn lemma_shows_as_concat(a: Seq<char>, a2: Seq<char>, b: Seq<char>, b2: Seq<char>)
    requires
        shows_as(a, a2),
        shows_as(b, b2),
    ensures
        shows_as(a + b, a2 + b2),
{
    lemma_shown_concat(a, b, false);
    lemma_plain_count_concat(a, b, false);
}

/// Text without an escape character shows as itself.
pub proof fn lemma_no_escape_shows(t: Seq<char>)
    requires
        !t.contains('\x1b'),
    ensures
        shows_as(t, t),
    decreases t.len(),
{
    if t.len() > 0 {
        assert(t[0] != '\x1b');
        assert(!t.drop_first().contains('\x1b')) by {
            if t.drop_first().contains('\x1b') {
                let k = choose|k: int| 0 <= k < t.drop_first().len() && t.drop_first()[k] == '\x1b';
                assert(t[k + 1] == '\x1b');
            }
        }
        lemma_no_escape_shows(t.drop_first());
        assert(seq![t[0]] + t.drop_first() =~= t);
        assert(shown(t, false) == seq![t[0]] + shown(t.drop_first(), false));
        assert(esc_after(t, false) == esc_after(t.drop_first(), false));
    } else {
        assert(shown(t, false) =~= t);
    }
}

/// Codes that show nothing show as nothing.
proof fn lemma_invisible_shows(p: Seq<char>)
    requires
        invisible(p),
    ensures
        shows_as(p, Seq::empty()),
{
    lemma_shown_len(p, false);
    assert(shown(p, false) =~= Seq::<char>::empty());
}

/// Painted text without escape characters shows as the text itself.
pub proof fn lemma_painted_shows(style: TextStyle, t: Seq<char>)
    requires
        style.wf(),
        shows_as(t, t),
    ensures
        shows_as(painted(style, t), t),
{
    let open = style_open(style);
    let close = style_close(style);
    lemma_open_invisible(style);
    lemma_invisible_shows(open);
    if !style.is_plain() {
        assert(!seq!['0'].contains('m')) by {
            if seq!['0'].contains('m') {
                let k = choose|k: int| 0 <= k < 1 && seq!['0'][k] == 'm';
            }
        }
        lemma_sgr_invisible(seq!['0'], false);
    }
    assert(invisible(close));
    lemma_invisible_shows(close);
    lemma_shows_as_concat(open, Seq::empty(), t, t);
    lemma_shows_as_concat(open + t, Seq::empty() + t, close, Seq::empty());
    assert(Seq::<char>::empty() + t + Seq::<char>::empty() =~= t);
}

/// The number of visible characters of `s`.
pub fn plain_len(s: &str) -> (r: usize)
    ensures
        r == visible_len(s@),
{
    let n = s.unicode_len();
    let mut len: usize = 0;
    let mut in_esc = false;
    let mut i: usize = 0;
    assert(s@.skip(0) =~= s@);
    while i < n
        invariant
            n == s@.len(),
            i <= n,
            len <= i,
            visible_len(s@) == len + plain_count(s@.skip(i as int), in_esc),
        decreases n - i,
    {
        let c = s.get_char(i);
        assert(s@.skip(i as int).drop_first() =~= s@.skip(i + 1));
        assert(s@.skip(i as int)[0] == c);
        if in_esc {
            if c == 'm' {
                in_esc = false;
            }
        } else if c == '\x1b' {
            in_esc = true;
        } else {
            len = len + 1;
        }
        i = i + 1;
    }
    len
}

// ---------------------------------------------------------------------------
// Tables.

/// The views of the rows of a table.
pub open spec fn rows_view(v: Seq<Vec<String>>) -> Seq<Seq<Seq<char>>> {
    v.map_values(|r: Vec<String>| strings_view(r@))
}

/// The number of columns: the length of the longest row.
pub open spec fn col_count(rows: Seq<Seq<Seq<char>>>) -> nat
    decreases rows.len(),
{
    if rows.len() == 0 {
        0
    } else {
        let c = col_count(rows.drop_last());
        if rows.last().len() > c {
            rows.last().len()
        } else {
            c
        }
    }
}

/// The width of a column: the widest visible cell in it, or 0.
pub open spec fn col_width(rows: Seq<Seq<Seq<char>>>, c: int) -> nat
    decreases rows.len(),
{
    if rows.len() == 0 {
        0
    } else {
        let w = col_width(rows.drop_last(), c);
        let r = rows.last();
        if 0 <= c < r.len() && visible_len(r[c]) > w {
            visible_len(r[c])
        } else {
            w
        }
    }
}

/// The cell of a row in a column, or nothing past its end.
pub open spec fn cell_at(row: Seq<Seq<char>>, c: int) -> Seq<char> {
    if 0 <= c < row.len() {
        row[c]
    } else {
        Seq::empty()
    }
}

/// `a - b`, or 0.
pub open spec fn sub_or_zero(a: nat, b: nat) -> nat {
    if a > b {
        (a - b) as nat
    } else {
        0
    }
}

/// One cell padded to its column's width, then two spaces unless it is the last column.
pub open spec fn cell_text(rows: Seq<Seq<Seq<char>>>, row: Seq<Seq<char>>, c: int, cols: nat) -> Seq<char> {
    let cell = cell_at(row, c);
    cell + repeat(' ', sub_or_zero(col_width(rows, c), visible_len(cell))) + if c + 1 < cols {
        seq![' ', ' ']
    } else {
        Seq::empty()
    }
}

/// The first `k` cells of a row.
pub open spec fn row_cells(rows: Seq<Seq<Seq<char>>>, row: Seq<Seq<char>>, k: nat, cols: nat) -> Seq<char>
    decreases k,
{
    if k == 0 {
        Seq::empty()
    } else {
        row_cells(rows, row, (k - 1) as nat, cols) + cell_text(rows, row, k - 1, cols)
    }
}

/// The rule under the header: for each of the first `k` columns, a dash per
/// unit of width and two spaces.
pub open spec fn rule_cells(rows: Seq<Seq<Seq<char>>>, k: nat) -> Seq<char>
    decreases k,
{
    if k == 0 {
        Seq::empty()
    } else {
        rule_cells(rows, (k - 1) as nat) + repeat('-', col_width(rows, k - 1)) + seq![' ', ' ']
    }
}

/// A row of the table as a line, with the rule after the first.
pub open spec fn row_line(rows: Seq<Seq<Seq<char>>>, i: int) -> Seq<char> {
    let cols = col_count(rows);
    row_cells(rows, rows[i], cols, cols) + seq!['\n'] + if i == 0 {
        rule_cells(rows, cols) + seq!['\n']
    } else {
        Seq::empty()
    }
}

/// The first `k` lines of the table.
pub open spec fn table_lines(rows: Seq<Seq<Seq<char>>>, k: nat) -> Seq<char>
    decreases k,
{
    if k == 0 {
        Seq::empty()
    } else {
        table_lines(rows, (k - 1) as nat) + row_line(rows, k - 1)
    }
}

/// A table as aligned text: each column as wide as its widest cell, a rule
/// of dashes under the header row.
pub open spec fn table_text(rows: Seq<Seq<Seq<char>>>) -> Seq<char> {
    table_lines(rows, rows.len())
}

/// The number of columns of a table.
fn count_cols(rows: &Vec<Vec<String>>) -> (r: usize)
    ensures
        r == col_count(rows_view(rows@)),
{
    let ghost v = rows_view(rows@);
    let mut cols: usize = 0;
    let mut i: usize = 0;
    while i < rows.len()
        invariant
            i <= rows@.len(),
            v == rows_view(rows@),
            cols == col_count(v.take(i as int)),
        decreases rows.len() - i,
    {
        assert(v.take(i + 1).drop_last() =~= v.take(i as int));
        assert(v[i as int].len() == rows@[i as int]@.len());
        if rows[i].len() > cols {
            cols = rows[i].len();
        }
        i = i + 1;
    }
    assert(v.take(rows@.len() as int) =~= v);
    cols
}

/// The width of column `c` of a table.
fn width_of(rows: &Vec<Vec<String>>, c: usize) -> (r: usize)
    ensures
        r == col_width(rows_view(rows@), c as int),
{
    let ghost v = rows_view(rows@);
    let mut w: usize = 0;
    let mut i: usize = 0;
    while i < rows.len()
        invariant
            i <= rows@.len(),
            v == rows_view(rows@),
            w == col_width(v.take(i as int), c as int),
        decreases rows.len() - i,
    {
        assert(v.take(i + 1).drop_last() =~= v.take(i as int));
        assert(v.take(i + 1).last() == v[i as int]);
        if c < rows[i].len() {
            let p = plain_len(rows[i][c].as_str());
            assert(v[i as int][c as int] == rows@[i as int]@[c as int]@);
            if p > w {
                w = p;
            }
        }
        i = i + 1;
    }
    assert(v.take(rows@.len() as int) =~= v);
    w
}

/// Renders rows as an aligned table, the first row as its header.
pub fn render_table(rows: &Vec<Vec<String>>) -> (r: String)
    ensures
        r@ == table_text(rows_view(rows@)),
{
    let ghost v = rows_view(rows@);
    let mut out = String::new();
    if rows.len() == 0 {
        return out;
    }
    let cols = count_cols(rows);
    let mut widths: Vec<usize> = Vec::new();
    let mut c: usize = 0;
    while c < cols
        invariant
            c <= cols,
            widths@.len() == c,
            forall|k: int| 0 <= k < c ==> widths@[k] == col_width(v, k),
            v == rows_view(rows@),
        decreases cols - c,
    {
        widths.push(width_of(rows, c));
        c = c + 1;
    }
    let mut i: usize = 0;
    while i < rows.len()
        invariant
            i <= rows@.len(),
            v == rows_view(rows@),
            cols == col_count(v),
            widths@.len() == cols,
            forall|k: int| 0 <= k < cols ==> widths@[k] == col_width(v, k),
            out@ == table_lines(v, i as nat),
        decreases rows.len() - i,
    {
        let row = &rows[i];
        let ghost start = out@;
        let mut c: usize = 0;
        while c < cols
            invariant
                c <= cols,
                i < rows@.len(),
                row == rows@[i as int],
                v == rows_view(rows@),
                cols == col_count(v),
                widths@.len() == cols,
                forall|k: int| 0 <= k < cols ==> widths@[k] == col_width(v, k),
                out@ == start + row_cells(v, v[i as int], c as nat, cols as nat),
            decreases cols - c,
        {
            let ghost before = out@;
            let empty = String::new();
            let cell: &String = if c < row.len() {
                &row[c]
            } else {
                &empty
            };
            assert(cell@ == cell_at(v[i as int], c as int));
            let p = plain_len(cell.as_str());
            let pad = if widths[c] > p {
                widths[c] - p
            } else {
                0
            };
            out.append(cell.as_str());
            push_repeat(&mut out, ' ', pad);
            if c + 1 < cols {
                out.append("  ");
            }
            proof {
                reveal_strlit("  ");
                assert(out@ =~= before + cell_text(v, v[i as int], c as int, cols as nat));
            }
            c = c + 1;
        }
        push_char(&mut out, '\n');
        if i == 0 {
            let ghost mid = out@;
            let mut k: usize = 0;
            while k < cols
                invariant
                    k <= cols,
                    v == rows_view(rows@),
                    widths@.len() == cols,
                    forall|j: int| 0 <= j < cols ==> widths@[j] == col_width(v, j),
                    out@ == mid + rule_cells(v, k as nat),
                decreases cols - k,
            {
                let ghost before = out@;
                push_repeat(&mut out, '-', widths[k]);
                out.append("  ");
                proof {
                    reveal_strlit("  ");
                    assert(out@ =~= before + repeat('-', col_width(v, k as int)) + seq![' ', ' ']);
                }
                k = k + 1;
            }
            push_char(&mut out, '\n');
        }
        proof {
            assert(out@ =~= table_lines(v, (i + 1) as nat));
        }
        i = i + 1;
    }
    out
}

// ---------------------------------------------------------------------------
// Markdown for a terminal.

/// The codes that open bold text.
pub open spec fn bold_open() -> Seq<char> {
    style_open(effects_only(true, false, false, false))
}

/// The codes that open italic text.
pub open spec fn italic_open() -> Seq<char> {
    style_open(effects_only(false, true, false, false))
}

/// The codes that open struck-through text.
pub open spec fn strike_open() -> Seq<char> {
    style_open(effects_only(false, false, false, true))
}

/// The codes that open a link.
pub open spec fn link_open() -> Seq<char> {
    style_open(link_style_of())
}

/// The codes that open dimmed text.
pub open spec fn dim_open() -> Seq<char> {
    style_open(fg_only(8))
}

/// Inline code: the text in reverse video.
pub open spec fn code_span(t: Seq<char>) -> Seq<char> {
    painted(effects_only(false, false, true, false), t)
}

/// The text with a line break at its end, unless it ends with one already.
pub open spec fn line_ended(out: Seq<char>) -> Seq<char> {
    if out.len() > 0 && out.last() == '\n' {
        out
    } else {
        out.push('\n')
    }
}

/// A code block: the code without one trailing line break, in the code
/// block colour, then a reset and a line break.
pub open spec fn code_block_text(code: Seq<char>, dark: bool) -> Seq<char> {
    let body = if code.len() > 0 && code.last() == '\n' {
        code.drop_last()
    } else {
        code
    };
    style_open(code_block_style_of(dark)) + body + reset_code() + seq!['\n']
}

/// The renderer's state between events.
#[verifier::ext_equal]
pub struct MdState {
    pub out: Seq<char>,
    pub code_buf: Seq<char>,
    pub in_code_block: bool,
    pub list_depth: nat,
    pub table_rows: Seq<Seq<Seq<char>>>,
    pub table_row: Seq<Seq<char>>,
    pub cell: Seq<char>,
    pub in_table: bool,
    pub in_cell: bool,
}

/// The state before the first event.
pub open spec fn md_start() -> MdState {
    MdState {
        out: Seq::empty(),
        code_buf: Seq::empty(),
        in_code_block: false,
        list_depth: 0,
        table_rows: Seq::empty(),
        table_row: Seq::empty(),
        cell: Seq::empty(),
        in_table: false,
        in_cell: false,
    }
}

/// What an event does inside a table: cells collect their text and inline
/// styles, rows collect their cells, and the end of the table writes it out.
pub open spec fn table_step(st: MdState, ev: MdEventV) -> MdState {
    match ev {
        MdEventV::Start(name) => match tag_kind(name) {
            MdTag::TableHead | MdTag::TableRow => MdState { table_row: Seq::empty(), ..st },
            MdTag::TableCell => MdState { in_cell: true, cell: Seq::empty(), ..st },
            MdTag::Emphasis => MdState { cell: st.cell + italic_open(), ..st },
            MdTag::Strong => MdState { cell: st.cell + bold_open(), ..st },
            MdTag::Strikethrough => MdState { cell: st.cell + strike_open(), ..st },
            MdTag::Link => MdState { cell: st.cell + link_open(), ..st },
            _ => st,
        },
        MdEventV::End(name) => match tag_kind(name) {
            MdTag::TableCell => MdState { in_cell: false, table_row: st.table_row.push(st.cell), ..st },
            MdTag::TableHead | MdTag::TableRow => MdState {
                table_rows: st.table_rows.push(st.table_row),
                table_row: Seq::empty(),
                ..st
            },
            MdTag::Table => MdState { in_table: false, out: st.out + table_text(st.table_rows), ..st },
            MdTag::Emphasis | MdTag::Strong | MdTag::Strikethrough | MdTag::Link => MdState {
                cell: st.cell + reset_code(),
                ..st
            },
            _ => st,
        },
        MdEventV::Text(t) => MdState { cell: st.cell + t, ..st },
        MdEventV::Code(t) => MdState { cell: st.cell + code_span(t), ..st },
        MdEventV::SoftBreak | MdEventV::HardBreak => MdState { cell: st.cell.push(' '), ..st },
        _ => st,
    }
}

/// What an event does outside a table.
pub open spec fn text_step(st: MdState, ev: MdEventV, dark: bool) -> MdState {
    match ev {
        MdEventV::Start(name) => match tag_kind(name) {
            MdTag::Heading | MdTag::Strong => MdState { out: st.out + bold_open(), ..st },
            MdTag::Emphasis => MdState { out: st.out + italic_open(), ..st },
            MdTag::Strikethrough => MdState { out: st.out + strike_open(), ..st },
            MdTag::Link => MdState { out: st.out + link_open(), ..st },
            MdTag::BlockQuote => MdState { out: st.out + dim_open() + "> "@, ..st },
            MdTag::List => MdState { list_depth: st.list_depth + 1, ..st },
            MdTag::Item => MdState {
                out: st.out + repeat(' ', 2 * sub_or_zero(st.list_depth, 1)) + "- "@,
                ..st
            },
            MdTag::CodeBlock => MdState { in_code_block: true, code_buf: Seq::empty(), ..st },
            MdTag::Table => MdState { in_table: true, table_rows: Seq::empty(), ..st },
            _ => st,
        },
        MdEventV::End(name) => match tag_kind(name) {
            MdTag::Heading | MdTag::Item | MdTag::Paragraph | MdTag::BlockQuote => MdState {
                out: line_ended(st.out) + reset_code(),
                ..st
            },
            MdTag::Emphasis | MdTag::Strong | MdTag::Strikethrough | MdTag::Link => MdState {
                out: st.out + reset_code(),
                ..st
            },
            MdTag::CodeBlock => MdState {
                in_code_block: false,
                out: st.out + code_block_text(st.code_buf, dark),
                ..st
            },
            MdTag::List => MdState { list_depth: sub_or_zero(st.list_depth, 1), ..st },
            _ => st,
        },
        MdEventV::Text(t) => if st.in_code_block {
            MdState { code_buf: st.code_buf + t, ..st }
        } else {
            MdState { out: st.out + t, ..st }
        },
        MdEventV::Code(t) => MdState { out: st.out + code_span(t), ..st },
        MdEventV::TaskListMarker(checked) => MdState {
            out: st.out + if checked {
                "[x] "@
            } else {
                "[ ] "@
            },
            ..st
        },
        MdEventV::SoftBreak | MdEventV::HardBreak => MdState { out: st.out.push('\n'), ..st },
        MdEventV::Rule => MdState { out: st.out + dim_open() + "----------\n"@ + reset_code(), ..st },
        MdEventV::Other => st,
    }
}

/// What one event does.
pub open spec fn md_step(st: MdState, ev: MdEventV, dark: bool) -> MdState {
    if st.in_table {
        table_step(st, ev)
    } else {
        text_step(st, ev, dark)
    }
}

/// The state after a run of events, first to last.
pub open spec fn md_run(evs: Seq<MdEventV>, dark: bool) -> MdState
    decreases evs.len(),
{
    if evs.len() == 0 {
        md_start()
    } else {
        md_step(md_run(evs.drop_last(), dark), evs.last(), dark)
    }
}

/// The terminal text for a run of markdown events.
pub open spec fn md_text(evs: Seq<MdEventV>, dark: bool) -> Seq<char> {
    md_run(evs, dark).out
}

/// The renderer's state.
pub struct MdRender {
    pub out: String,
    pub code_buf: String,
    pub in_code_block: bool,
    pub list_depth: usize,
    pub table_rows: Vec<Vec<String>>,
    pub table_row: Vec<String>,
    pub cell: String,
    pub in_table: bool,
    pub in_cell: bool,
}

impl View for MdRender {
    type V = MdState;

    open spec fn view(&self) -> MdState {
        MdState {
            out: self.out@,
            code_buf: self.code_buf@,
            in_code_block: self.in_code_block,
            list_depth: self.list_depth as nat,
            table_rows: rows_view(self.table_rows@),
            table_row: strings_view(self.table_row@),
            cell: self.cell@,
            in_table: self.in_table,
            in_cell: self.in_cell,
        }
    }
}

/// The codes that open a style.
fn open_codes(style: TextStyle) -> (r: String)
    requires
        style.wf(),
    ensures
        r@ == style_open(style),
{
    render_open(&style)
}

/// Applies an event inside a table.
fn table_event(st: &mut MdRender, ev: &MdEvent)
    requires
        old(st).in_table,
    ensures
        final(st)@ == table_step(old(st)@, ev@),
{
    match ev {
        MdEvent::Start(name) => match tag_kind_of(name.as_str()) {
            MdTag::TableHead | MdTag::TableRow => {
                st.table_row = Vec::new();
                assert(strings_view(st.table_row@) =~= Seq::<Seq<char>>::empty());
            },
            MdTag::TableCell => {
                st.in_cell = true;
                st.cell = String::new();
            },
            MdTag::Emphasis => st.cell.append(open_codes(effects_style(false, true, false, false)).as_str()),
            MdTag::Strong => st.cell.append(open_codes(effects_style(true, false, false, false)).as_str()),
            MdTag::Strikethrough => st.cell.append(open_codes(effects_style(false, false, false, true)).as_str()),
            MdTag::Link => st.cell.append(open_codes(link_style()).as_str()),
            _ => {},
        },
        MdEvent::End(name) => match tag_kind_of(name.as_str()) {
            MdTag::TableCell => {
                st.in_cell = false;
                let ghost before = st.table_row@;
                st.table_row.push(st.cell.clone());
                assert(strings_view(st.table_row@) =~= strings_view(before).push(st.cell@));
            },
            MdTag::TableHead | MdTag::TableRow => {
                let mut row: Vec<String> = Vec::new();
                std::mem::swap(&mut row, &mut st.table_row);
                let ghost before = st.table_rows@;
                st.table_rows.push(row);
                assert(rows_view(st.table_rows@) =~= rows_view(before).push(strings_view(row@)));
                assert(strings_view(st.table_row@) =~= Seq::<Seq<char>>::empty());
            },
            MdTag::Table => {
                st.in_table = false;
                let t = render_table(&st.table_rows);
                st.out.append(t.as_str());
            },
            MdTag::Emphasis | MdTag::Strong | MdTag::Strikethrough | MdTag::Link => {
                st.cell.append(render_reset().as_str());
            },
            _ => {},
        },
        MdEvent::Text(t) => st.cell.append(t.as_str()),
        MdEvent::Code(t) => st.cell.append(paint(&effects_style(false, false, true, false), t.as_str()).as_str()),
        MdEvent::SoftBreak | MdEvent::HardBreak => push_char(&mut st.cell, ' '),
        _ => {},
    }
}

/// Ends the text with a line break unless it ends with one.
pub fn push_line(out: &mut String)
    ensures
        final(out)@ == line_ended(old(out)@),
{
    let n = out.as_str().unicode_len();
    if n == 0 || out.as_str().get_char(n - 1) != '\n' {
        push_char(out, '\n');
    }
}

/// A code block for the terminal.
pub fn render_code_block(code: &str, dark: bool) -> (r: String)
    ensures
        r@ == code_block_text(code@, dark),
{
    let n = code.unicode_len();
    let body = if n > 0 && code.get_char(n - 1) == '\n' {
        code.substring_char(0, n - 1)
    } else {
        code.substring_char(0, n)
    };
    assert(code@.subrange(0, n as int) =~= code@);
    assert(n > 0 ==> code@.subrange(0, n - 1) =~= code@.drop_last());
    let mut s = open_codes(code_block_style(dark));
    s.append(body);
    s.append(render_reset().as_str());
    push_char(&mut s, '\n');
    s
}

/// Applies an event outside a table.
fn text_event(st: &mut MdRender, ev: &MdEvent, dark: bool)
    requires
        !old(st).in_table,
        old(st).list_depth < usize::MAX,
    ensures
        final(st)@ == text_step(old(st)@, ev@, dark),
{
    match ev {
        MdEvent::Start(name) => match tag_kind_of(name.as_str()) {
            MdTag::Heading | MdTag::Strong => st.out.append(open_codes(effects_style(true, false, false, false)).as_str()),
            MdTag::Emphasis => st.out.append(open_codes(effects_style(false, true, false, false)).as_str()),
            MdTag::Strikethrough => st.out.append(open_codes(effects_style(false, false, false, true)).as_str()),
            MdTag::Link => st.out.append(open_codes(link_style()).as_str()),
            MdTag::BlockQuote => {
                st.out.append(open_codes(dim_style()).as_str());
                st.out.append("> ");
            },
            MdTag::List => st.list_depth = st.list_depth + 1,
            MdTag::Item => {
                let k = if st.list_depth > 0 { st.list_depth - 1 } else { 0 };
                let mut indent = String::new();
                let mut j: usize = 0;
                while j < k
                    invariant
                        j <= k,
                        indent@ == repeat(' ', 2 * j as nat),
                    decreases k - j,
                {
                    indent.append("  ");
                    proof {
                        reveal_strlit("  ");
                        assert(indent@ =~= repeat(' ', 2 * (j + 1) as nat));
                    }
                    j = j + 1;
                }
                st.out.append(indent.as_str());
                st.out.append("- ");
            },
            MdTag::CodeBlock => {
                st.in_code_block = true;
                st.code_buf = String::new();
            },
            MdTag::Table => {
                st.in_table = true;
                st.table_rows = Vec::new();
                assert(rows_view(st.table_rows@) =~= Seq::<Seq<Seq<char>>>::empty());
            },
            _ => {},
        },
        MdEvent::End(name) => match tag_kind_of(name.as_str()) {
            MdTag::Heading | MdTag::Item | MdTag::Paragraph | MdTag::BlockQuote => {
                push_line(&mut st.out);
                st.out.append(render_reset().as_str());
            },
            MdTag::Emphasis | MdTag::Strong | MdTag::Strikethrough | MdTag::Link => {
                st.out.append(render_reset().as_str());
            },
            MdTag::CodeBlock => {
                st.in_code_block = false;
                let b = render_code_block(st.code_buf.as_str(), dark);
                st.out.append(b.as_str());
            },
            MdTag::List => st.list_depth = if st.list_depth > 0 { st.list_depth - 1 } else { 0 },
            _ => {},
        },
        MdEvent::Text(t) => {
            if st.in_code_block {
                st.code_buf.append(t.as_str());
            } else {
                st.out.append(t.as_str());
            }
        },
        MdEvent::Code(t) => st.out.append(paint(&effects_style(false, false, true, false), t.as_str()).as_str()),
        MdEvent::TaskListMarker(checked) => {
            if *checked {
                st.out.append("[x] ");
            } else {
                st.out.append("[ ] ");
            }
        },
        MdEvent::SoftBreak | MdEvent::HardBreak => push_char(&mut st.out, '\n'),
        MdEvent::Rule => {
            st.out.append(open_codes(dim_style()).as_str());
            st.out.append("----------\n");
            st.out.append(render_reset().as_str());
        },
        MdEvent::Other => {},
    }
}

/// Renders markdown events as styled terminal text.
pub fn render_events(events: &Vec<MdEvent>, dark: bool) -> (r: String)
    ensures
        r@ == md_text(crate::markdown::events_view(events@), dark),
{
    let ghost evs = crate::markdown::events_view(events@);
    let mut st = MdRender {
        out: String::new(),
        code_buf: String::new(),
        in_code_block: false,
        list_depth: 0,
        table_rows: Vec::new(),
        table_row: Vec::new(),
        cell: String::new(),
        in_table: false,
        in_cell: false,
    };
    assert(rows_view(st.table_rows@) =~= Seq::<Seq<Seq<char>>>::empty());
    assert(strings_view(st.table_row@) =~= Seq::<Seq<char>>::empty());
    assert(st@ =~= md_start());
    let mut i: usize = 0;
    while i < events.len()
        invariant
            i <= events@.len(),
            evs == crate::markdown::events_view(events@),
            st@ == md_run(evs.take(i as int), dark),
            st.list_depth <= i,
        decreases events.len() - i,
    {
        assert(evs.take(i + 1).drop_last() =~= evs.take(i as int));
        assert(evs.take(i + 1).last() == events@[i as int]@);
        if st.in_table {
            table_event(&mut st, &events[i]);
        } else {
            text_event(&mut st, &events[i], dark);
        }
        i = i + 1;
    }
    assert(evs.take(events@.len() as int) =~= evs);
    st.out
}

/// Renders a markdown document as styled terminal text: bold headings and
/// strong text, italic emphasis, reverse-video inline code, code blocks in one
/// colour, dimmed quotes and rules, indented list items, aligned tables.
/// `dark` tells whether the terminal background is dark.
pub fn render_markdown(md: &str, dark: bool) -> (r: String)
    ensures
        r@ == md_text(markdown_events_of(md@), dark),
{
    let events = markdown_events(md);
    render_events(&events, dark)
}

// ---------------------------------------------------------------------------
// The terminal background.

/// Where the first field of a `;`-separated list ends: at the first `;`, or
/// at the end.
pub open spec fn field_end(s: Seq<char>) -> int
    decreases s.len(),
{
    if s.len() == 0 || s[0] == ';' {
        0
    } else {
        1 + field_end(s.drop_first())
    }
}

/// The second field of a `;`-separated list, if there is one.
pub open spec fn second_field(s: Seq<char>) -> Option<Seq<char>> {
    let i = field_end(s);
    if i >= s.len() {
        None
    } else {
        let rest = s.skip(i + 1);
        Some(rest.take(field_end(rest)))
    }
}

/// Whether `c` is a decimal digit.
pub open spec fn is_digit(c: char) -> bool {
    '0' <= c <= '9'
}

/// The value of decimal digits.
pub open spec fn digits_value(s: Seq<char>) -> nat
    decreases s.len(),
{
    if s.len() == 0 {
        0
    } else {
        digits_value(s.drop_last()) * 10 + ((s.last() as u32) - ('0' as u32)) as nat
    }
}

/// The text after an optional leading `+`.
pub open spec fn unsigned_digits(s: Seq<char>) -> Seq<char> {
    if s.len() > 0 && s[0] == '+' {
        s.drop_first()
    } else {
        s
    }
}

/// A byte written in decimal, as `u8::from_str` reads it: an optional `+`,
/// then one or more digits, of value at most 255.
pub open spec fn u8_of(s: Seq<char>) -> Option<u8> {
    let d = unsigned_digits(s);
    if d.len() > 0 && (forall|i: int| 0 <= i < d.len() ==> is_digit(#[trigger] d[i])) && digits_value(d)
        < 256 {
        Some(digits_value(d) as u8)
    } else {
        None
    }
}

/// Whether the background is dark, from the `COLORFGBG` variable (foreground
/// and background colour numbers separated by `;`): dark when the background
/// is one of the first eight colours, and when the variable is missing or
/// says nothing readable.
pub open spec fn dark_of(colorfgbg: Option<Seq<char>>) -> bool {
    match colorfgbg {
        None => true,
        Some(v) => match second_field(v) {
            None => true,
            Some(f) => match u8_of(f) {
                Some(bg) => bg < 8,
                None => true,
            },
        },
    }
}

proof fn lemma_field_end_range(s: Seq<char>)
    ensures
        0 <= field_end(s) <= s.len(),
        field_end(s) < s.len() ==> s[field_end(s)] == ';',
        forall|k: int| 0 <= k < field_end(s) ==> s[k] != ';',
    decreases s.len(),
{
    if s.len() > 0 && s[0] != ';' {
        lemma_field_end_range(s.drop_first());
        assert forall|k: int| 0 <= k < field_end(s) implies s[k] != ';' by {
            if k > 0 {
                assert(s[k] == s.drop_first()[k - 1]);
            }
        }
    }
}

/// Where the first `;` at or after `from` is, or the end.
fn find_semicolon(s: &str, from: usize) -> (r: usize)
    requires
        from <= s@.len(),
    ensures
        r == from + field_end(s@.skip(from as int)),
        from <= r <= s@.len(),
{
    let n = s.unicode_len();
    let mut i = from;
    proof {
        lemma_field_end_range(s@.skip(from as int));
    }
    while i < n && s.get_char(i) != ';'
        invariant
            n == s@.len(),
            from <= i <= n,
            from + field_end(s@.skip(from as int)) == i + field_end(s@.skip(i as int)),
        decreases n - i,
    {
        assert(s@.skip(i as int).drop_first() =~= s@.skip(i + 1));
        i = i + 1;
    }
    if i == n {
        assert(s@.skip(i as int).len() == 0);
    } else {
        assert(s@.skip(i as int)[0] == ';');
    }
    i
}

/// The byte written in decimal in `s`, as `u8::from_str` reads it.
pub fn parse_u8(s: &str) -> (r: Option<u8>)
    ensures
        r == u8_of(s@),
{
    let n = s.unicode_len();
    let start: usize = if n > 0 && s.get_char(0) == '+' {
        1
    } else {
        0
    };
    let ghost d = unsigned_digits(s@);
    assert(d =~= s@.skip(start as int));
    if start >= n {
        return None;
    }
    let mut value: u32 = 0;
    let mut i = start;
    while i < n
        invariant
            n == s@.len(),
            start <= i <= n,
            d == s@.skip(start as int),
            d == unsigned_digits(s@),
            forall|k: int| 0 <= k < i - start ==> is_digit(#[trigger] d[k]),
            value == digits_value(d.take(i - start)),
            value < 256,
        decreases n - i,
    {
        let c = s.get_char(i);
        assert(d[i - start] == c);
        if c < '0' || c > '9' {
            assert(!is_digit(d[i - start]));
            return None;
        }
        let v = value * 10 + ((c as u32) - ('0' as u32));
        assert(d.take(i - start + 1).drop_last() =~= d.take(i - start));
        if v > 255 {
            assert(digits_value(d.take(i - start + 1)) > 255);
            proof {
                if forall|k: int| 0 <= k < d.len() ==> is_digit(#[trigger] d[k]) {
                    lemma_digits_value_prefix(d, i - start + 1);
                }
            }
            return None;
        }
        value = v;
        i = i + 1;
    }
    assert(d.take(n - start) =~= d);
    Some(value as u8)
}

/// The value of a prefix of digits is at most the value of the digits.
proof fn lemma_digits_value_prefix(d: Seq<char>, k: int)
    requires
        0 <= k <= d.len(),
        forall|i: int| 0 <= i < d.len() ==> is_digit(#[trigger] d[i]),
    ensures
        digits_value(d.take(k)) <= digits_value(d),
    decreases d.len() - k,
{
    if k < d.len() {
        lemma_digits_value_prefix(d, k + 1);
        assert(d.take(k + 1).drop_last() =~= d.take(k));
        assert(is_digit(d[k]));
    } else {
        assert(d.take(k) =~= d);
    }
}

/// Whether the terminal background is dark, from the value of `COLORFGBG`.
pub fn dark_background(colorfgbg: Option<&str>) -> (r: bool)
    ensures
        r == dark_of(
            match colorfgbg {
                Some(v) => Some(v@),
                None => None,
            },
        ),
{
    match colorfgbg {
        None => true,
        Some(v) => {
            let n = v.unicode_len();
            let i = find_semicolon(v, 0);
            assert(v@.skip(0) =~= v@);
            if i >= n {
                return true;
            }
            let j = find_semicolon(v, i + 1);
            let f = v.substring_char(i + 1, j);
            assert(f@ =~= v@.skip(i + 1).take(field_end(v@.skip(i + 1))));
            match parse_u8(f) {
                Some(bg) => bg < 8,
                None => true,
            }
        },
    }
}

/// Whether the human view emits escape codes: only when standard output is a
/// terminal and `NO_COLOR` is unset, so that piped output stays plain.
pub fn colorize(is_tty: bool, no_color: bool) -> (r: bool)
    ensures
        r == (is_tty && !no_color),
{
    is_tty && !no_color
}

/// A fenced code block shows its code: after any run of events that leaves
/// the renderer outside a table, a code block holding the text `t` adds to
/// the output what shows on a terminal as `t`, less one final line break,
/// on a line of its own; what came before is kept.
pub proof fn law_code_block_shows_code(
    evs: Seq<MdEventV>,
    open: Seq<char>,
    close: Seq<char>,
    t: Seq<char>,
    dark: bool,
)
    requires
        !md_run(evs, dark).in_table,
        name_head(open) == "CodeBlock"@,
        name_head(close) == "CodeBlock"@,
        !t.contains('\x1b'),
    ensures
        ({
            let before = md_text(evs, dark);
            let after = md_text(
                evs + seq![MdEventV::Start(open), MdEventV::Text(t), MdEventV::End(close)],
                dark,
            );
            let code = if t.len() > 0 && t.last() == '\n' {
                t.drop_last()
            } else {
                t
            };
            &&& before.len() <= after.len()
            &&& after.take(before.len() as int) == before
            &&& shows_as(after.skip(before.len() as int), code + "\n"@)
        }),
{
    reveal_strlit("CodeBlock");
    reveal_strlit("Paragraph");
    reveal_strlit("Heading");
    reveal_strlit("BlockQuote");
    reveal_strlit("\n");
    let cb = "CodeBlock"@;
    assert(cb != "Paragraph"@) by {
        assert(cb[0] != "Paragraph"@[0]);
    }
    assert(cb != "Heading"@) by {
        assert(cb.len() != "Heading"@.len());
    }
    assert(cb != "BlockQuote"@) by {
        assert(cb.len() != "BlockQuote"@.len());
    }
    assert(tag_kind(open) == MdTag::CodeBlock);
    assert(tag_kind(close) == MdTag::CodeBlock);
    let a = MdEventV::Start(open);
    let b = MdEventV::Text(t);
    let c = MdEventV::End(close);
    let e1 = evs + seq![a];
    let e2 = evs + seq![a, b];
    let e3 = evs + seq![a, b, c];
    assert(e1.drop_last() =~= evs);
    assert(e2.drop_last() =~= e1);
    assert(e3.drop_last() =~= e2);
    let st0 = md_run(evs, dark);
    let st1 = md_run(e1, dark);
    let st2 = md_run(e2, dark);
    let st3 = md_run(e3, dark);
    assert(st1 == md_step(st0, a, dark));
    assert(st1 == MdState { in_code_block: true, code_buf: Seq::empty(), ..st0 });
    assert(st2 == md_step(st1, b, dark));
    assert(st2.code_buf =~= t);
    assert(st2.out == st0.out && !st2.in_table && st2.in_code_block);
    assert(st3 == md_step(st2, c, dark));
    assert(st3.out == st0.out + code_block_text(t, dark));
    let code = if t.len() > 0 && t.last() == '\n' {
        t.drop_last()
    } else {
        t
    };
    let style = code_block_style_of(dark);
    assert(!code.contains('\x1b')) by {
        if code.contains('\x1b') {
            let k = choose|k: int| 0 <= k < code.len() && code[k] == '\x1b';
            assert(t[k] == '\x1b');
        }
    }
    lemma_no_escape_shows(code);
    lemma_painted_shows(style, code);
    assert(!"\n"@.contains('\x1b')) by {
        if "\n"@.contains('\x1b') {
            let k = choose|k: int| 0 <= k < 1 && "\n"@[k] == '\x1b';
        }
    }
    lemma_no_escape_shows("\n"@);
    lemma_shows_as_concat(painted(style, code), code, "\n"@, "\n"@);
    assert(code_block_text(t, dark) =~= painted(style, code) + "\n"@);
    let before = st0.out;
    let after = st3.out;
    assert(after.take(before.len() as int) =~= before);
    assert(after.skip(before.len() as int) =~= code_block_text(t, dark));
}

/// Text outside code blocks and tables is shown as it is: a text event adds
/// its text to the output, an inline code span adds what shows as its text,
/// and a line break adds a line break; what came before is kept.
pub proof fn law_text_is_shown(evs: Seq<MdEventV>, t: Seq<char>, dark: bool)
    requires
        !md_run(evs, dark).in_table,
        !md_run(evs, dark).in_code_block,
    ensures
        md_text(evs.push(MdEventV::Text(t)), dark) == md_text(evs, dark) + t,
        md_text(evs.push(MdEventV::SoftBreak), dark) == md_text(evs, dark).push('\n'),
        md_text(evs.push(MdEventV::HardBreak), dark) == md_text(evs, dark).push('\n'),
        !t.contains('\x1b') ==> ({
            let before = md_text(evs, dark);
            let after = md_text(evs.push(MdEventV::Code(t)), dark);
            &&& before.len() <= after.len()
            &&& after.take(before.len() as int) == before
            &&& shows_as(after.skip(before.len() as int), t)
        }),
{
    assert(evs.push(MdEventV::Text(t)).drop_last() =~= evs);
    assert(evs.push(MdEventV::SoftBreak).drop_last() =~= evs);
    assert(evs.push(MdEventV::HardBreak).drop_last() =~= evs);
    assert(evs.push(MdEventV::Code(t)).drop_last() =~= evs);
    if !t.contains('\x1b') {
        let before = md_text(evs, dark);
        let after = md_text(evs.push(MdEventV::Code(t)), dark);
        assert(after == before + code_span(t));
        lemma_no_escape_shows(t);
        lemma_painted_shows(effects_only(false, false, true, false), t);
        assert(after.take(before.len() as int) =~= before);
        assert(after.skip(before.len() as int) =~= code_span(t));
    }
}

} // verus!
