//! The printed forms of token text: escaping, truncation, and the table of
//! tokens.

use vstd::prelude::*;
use crate::text::{is_control, hex, decimal, in_base, digit_char, char_is_control, push_in_base, chars_of,
    string_of_chars};
use crate::token::{Token, TokenView, type_display, no_newline, lemma_type_display_one_line};
use crate::text::{count_char, lemma_count_char_append};

verus! {

/// How one character is shown: backslash, newline, carriage return and tab
/// as their escapes, other control characters as `\x` and their code in
/// hexadecimal, every other character as itself.
pub open spec fn escape_char(c: char) -> Seq<char> {
    if c == '\\' {
        seq!['\\', '\\']
    } else if c == '\n' {
        seq!['\\', 'n']
    } else if c == '\r' {
        seq!['\\', 'r']
    } else if c == '\t' {
        seq!['\\', 't']
    } else if is_control(c) {
        seq!['\\', 'x'] + hex((c as u32) as nat)
    } else {
        seq![c]
    }
}

/// `s` with every character shown as `escape_char` shows it.
pub open spec fn escape(s: Seq<char>) -> Seq<char>
    decreases s.len(),
{
    if s.len() == 0 {
        seq![]
    } else {
        escape(s.drop_last()) + escape_char(s.last())
    }
}

/// Shows the characters of `s` with control characters escaped.
pub fn show(s: &str) -> (r: String)
    ensures
        r@ == escape(s@),
{
    broadcast use vstd::string::group_string_axioms;
    let mut out: Vec<char> = Vec::new();
    let ghost src = s@;
    for c in it: s.chars()
        invariant
            it.seq() == src,
            out@ == escape(src.take(it.index() as int)),
    {
        let ghost k = it.index() as int;
        let ghost before = out@;
        if c == '\\' {
            out.push('\\');
            out.push('\\');
        } else if c == '\n' {
            out.push('\\');
            out.push('n');
        } else if c == '\r' {
            out.push('\\');
            out.push('r');
        } else if c == '\t' {
            out.push('\\');
            out.push('t');
        } else if char_is_control(c) {
            out.push('\\');
            out.push('x');
            push_in_base(&mut out, c as u32, 16);
        } else {
            out.push(c);
        }
        assert(src.take(k + 1).drop_last() =~= src.take(k));
        assert(out@ =~= before + escape_char(c));
    }
    assert(src.take(src.len() as int) =~= src);
    string_of_chars(&out)
}

/// `s` cut down to `max` characters where it is longer: its first characters,
/// an ellipsis, and its last `min(6, max / 3)` characters, the first being as
/// many as leave room for the ellipsis and two more.
pub open spec fn truncated(s: Seq<char>, max: nat) -> Seq<char> {
    if s.len() <= max {
        s
    } else {
        let tail: nat = if max / 3 < 6 { max / 3 } else { 6 };
        let head: nat = if max >= tail + 3 { (max - (tail + 3)) as nat } else { 0 };
        s.take(head as int) + seq!['\u{2026}'] + s.skip(s.len() - tail)
    }
}

/// Shortens `s` to about `max` characters, keeping its start and its end.
pub fn truncate(s: &str, max: usize) -> (r: String)
    ensures
        r@ == truncated(s@, max as nat),
{
    let chars = chars_of(s);
    let count = chars.len();
    if count <= max {
        return s.to_owned();
    }
    let tail: usize = if max / 3 < 6 { max / 3 } else { 6 };
    let head: usize = if max >= tail + 3 { max - (tail + 3) } else { 0 };
    let mut out: Vec<char> = Vec::new();
    let mut k: usize = 0;
    while k < head
        invariant
            head <= max < count == chars.len(),
            k <= head,
            out@ == chars@.take(k as int),
        decreases head - k,
    {
        out.push(chars[k]);
        k += 1;
        assert(out@ =~= chars@.take(k as int));
    }
    out.push('\u{2026}');
    let ghost prefix = out@;
    let mut k: usize = count - tail;
    while k < count
        invariant
            tail <= max < count == chars.len(),
            count - tail <= k <= count,
            out@ == prefix + chars@.subrange(count - tail, k as int),
        decreases count - k,
    {
        out.push(chars[k]);
        k += 1;
        assert(out@ =~= prefix + chars@.subrange(count - tail, k as int));
    }
    assert(chars@.subrange(count - tail, count as int) =~= chars@.skip(count - tail));
    string_of_chars(&out)
}

/// The widest cell any table cell is shown in, before it is cut down.
pub const MAX_CELL: usize = 32;

/// The text of the span `l1:c1 - l2:c2`.
pub open spec fn span_text(t: TokenView) -> Seq<char> {
    decimal(t.span.line_start as nat) + seq![':'] + decimal(t.span.col_start as nat) + seq![' ', '-', ' ']
        + decimal(t.span.line_end as nat) + seq![':'] + decimal(t.span.col_end as nat)
}

/// The four cells of a token's row: its type, its lexeme and its literal
/// (`-` where it has none), shown and cut down, and its span.
pub open spec fn token_cells(t: TokenView) -> Seq<Seq<char>> {
    seq![
        type_display(t.token_type),
        truncated(escape(t.lexeme), MAX_CELL as nat),
        match t.literal {
            Some(l) => truncated(escape(l), MAX_CELL as nat),
            None => seq!['-'],
        },
        span_text(t),
    ]
}

pub open spec fn header_cells() -> Seq<Seq<char>> {
    seq!["TYPE"@, "LEXEME"@, "LITERAL"@, "SPAN"@]
}

/// The header row, then a row for each token.
pub open spec fn table_rows(tokens: Seq<TokenView>) -> Seq<Seq<Seq<char>>> {
    seq![header_cells()] + tokens.map_values(|t: TokenView| token_cells(t))
}

/// The length of the longest cell in column `i`.
pub open spec fn column_width(rows: Seq<Seq<Seq<char>>>, i: int) -> nat
    decreases rows.len(),
{
    if rows.len() == 0 {
        0
    } else {
        let w = column_width(rows.drop_last(), i);
        if rows.last()[i].len() > w {
            rows.last()[i].len()
        } else {
            w
        }
    }
}

pub open spec fn spaces(n: nat) -> Seq<char> {
    Seq::new(n, |k: int| ' ')
}

/// A cell padded with spaces to `width`, then two spaces.
pub open spec fn padded(cell: Seq<char>, width: nat) -> Seq<char> {
    cell + spaces(if width > cell.len() { (width - cell.len()) as nat } else { 0 }) + spaces(2)
}

/// The first `n` cells of a row, padded.
pub open spec fn cells_text(cells: Seq<Seq<char>>, widths: Seq<nat>, n: int) -> Seq<char>
    decreases n,
{
    if n <= 0 {
        seq![]
    } else {
        cells_text(cells, widths, n - 1) + padded(cells[n - 1], widths[n - 1])
    }
}

/// `s` without the spaces at its end.
pub open spec fn trim_spaces(s: Seq<char>) -> Seq<char>
    decreases s.len(),
{
    if s.len() > 0 && s.last() == ' ' {
        trim_spaces(s.drop_last())
    } else {
        s
    }
}

/// A row: its padded cells without the trailing spaces, then a newline.
pub open spec fn render_row(cells: Seq<Seq<char>>, widths: Seq<nat>) -> Seq<char> {
    trim_spaces(cells_text(cells, widths, cells.len() as int)) + seq!['\n']
}

pub open spec fn render_rows(rows: Seq<Seq<Seq<char>>>, widths: Seq<nat>) -> Seq<char>
    decreases rows.len(),
{
    if rows.len() == 0 {
        seq![]
    } else {
        render_rows(rows.drop_last(), widths) + render_row(rows.last(), widths)
    }
}

/// The table of `tokens`: every column as wide as its longest cell.
pub open spec fn token_table(tokens: Seq<TokenView>) -> Seq<char> {
    let rows = table_rows(tokens);
    render_rows(rows, Seq::new(4, |i: int| column_width(rows, i)))
}

pub open spec fn token_views(tokens: Seq<Token>) -> Seq<TokenView> {
    tokens.map_values(|t: Token| t@)
}

fn span_cell(t: &Token) -> (r: Vec<char>)
    ensures
        r@ == span_text(t@),
{
    let mut out: Vec<char> = Vec::new();
    push_in_base(&mut out, t.span.line_start, 10);
    out.push(':');
    push_in_base(&mut out, t.span.col_start, 10);
    out.push(' ');
    out.push('-');
    out.push(' ');
    push_in_base(&mut out, t.span.line_end, 10);
    out.push(':');
    push_in_base(&mut out, t.span.col_end, 10);
    assert(out@ =~= span_text(t@));
    out
}

fn cells_of(t: &Token) -> (r: Vec<Vec<char>>)
    ensures
        r.deep_view() == token_cells(t@),
{
    let mut cells: Vec<Vec<char>> = Vec::new();
    cells.push(chars_of(t.token_type.to_string().as_str()));
    cells.push(chars_of(truncate(show(t.lexeme.as_str()).as_str(), MAX_CELL).as_str()));
    match &t.literal {
        Some(l) => cells.push(chars_of(truncate(show(l.as_str()).as_str(), MAX_CELL).as_str())),
        None => cells.push(vec!['-']),
    }
    cells.push(span_cell(t));
    proof {
        assert forall|i: int| 0 <= i < 4 implies cells[i].deep_view() == cells[i]@ by {
            assert(cells[i].deep_view() =~= cells[i]@);
        }
        assert(cells.deep_view().len() == 4);
        assert(cells.deep_view()[0] == token_cells(t@)[0]);
        assert(cells.deep_view()[1] == token_cells(t@)[1]);
        assert(cells.deep_view()[2] == token_cells(t@)[2]);
        assert(cells.deep_view()[3] == token_cells(t@)[3]);
        assert(cells.deep_view() =~= token_cells(t@));
    }
    cells
}

/// Appends a row: its cells padded to `widths`, without the trailing spaces,
/// then a newline.
fn push_row(out: &mut Vec<char>, cells: &Vec<Vec<char>>, widths: &Vec<usize>)
    requires
        cells.len() == widths.len(),
    ensures
        final(out)@ == old(out)@ + render_row(cells.deep_view(), widths@.map_values(|w: usize| w as nat)),
{
    let ghost cv = cells.deep_view();
    let ghost wv = widths@.map_values(|w: usize| w as nat);
    let mut line: Vec<char> = Vec::new();
    let mut i: usize = 0;
    while i < cells.len()
        invariant
            cells.len() == widths.len(),
            cv == cells.deep_view(),
            wv == widths@.map_values(|w: usize| w as nat),
            i <= cells.len(),
            line@ == cells_text(cv, wv, i as int),
        decreases cells.len() - i,
    {
        let ghost before = line@;
        let cell = &cells[i];
        let mut k: usize = 0;
        while k < cell.len()
            invariant
                k <= cell.len(),
                line@ == before + cell@.take(k as int),
            decreases cell.len() - k,
        {
            line.push(cell[k]);
            k += 1;
            assert(line@ =~= before + cell@.take(k as int));
        }
        assert(cell@.take(cell.len() as int) =~= cell@);
        let ghost with_cell = line@;
        let mut pad: usize = 0;
        let fill: usize = if widths[i] > cell.len() { widths[i] - cell.len() } else { 0 };
        while pad < fill
            invariant
                pad <= fill,
                line@ == with_cell + spaces(pad as nat),
            decreases fill - pad,
        {
            line.push(' ');
            pad += 1;
            assert(line@ =~= with_cell + spaces(pad as nat));
        }
        line.push(' ');
        line.push(' ');
        proof {
            assert(line@ =~= with_cell + spaces((fill + 2) as nat));
            assert(cv[i as int] == cell@);
            assert(wv[i as int] == widths[i as int] as nat);
            assert(spaces((fill + 2) as nat) =~= spaces(fill as nat) + spaces(2));
            assert(line@ =~= cells_text(cv, wv, i + 1));
        }
        i += 1;
    }
    let ghost full = line@;
    while line.len() > 0 && line[line.len() - 1] == ' '
        invariant
            trim_spaces(line@) == trim_spaces(full),
        decreases line.len(),
    {
        line.pop();
    }
    line.push('\n');
    out.append(&mut line);
}

fn column_width_of(rows: &Vec<Vec<Vec<char>>>, i: usize) -> (w: usize)
    requires
        forall|r: int| 0 <= r < rows.len() ==> i < (#[trigger] rows[r]).len(),
    ensures
        w == column_width(rows.deep_view(), i as int),
{
    let ghost dv = rows.deep_view();
    let mut w: usize = 0;
    let mut r: usize = 0;
    while r < rows.len()
        invariant
            dv == rows.deep_view(),
            r <= rows.len(),
            forall|r: int| 0 <= r < rows.len() ==> i < (#[trigger] rows[r]).len(),
            w == column_width(dv.take(r as int), i as int),
        decreases rows.len() - r,
    {
        assert(dv.take(r + 1).drop_last() =~= dv.take(r as int));
        assert(dv[r as int][i as int] == rows[r as int][i as int]@) by {
            assert(rows[r as int][i as int].deep_view() =~= rows[r as int][i as int]@);
        }
        let len = rows[r][i].len();
        if len > w {
            w = len;
        }
        r += 1;
    }
    assert(dv.take(rows.len() as int) =~= dv);
    w
}

/// The tokens as a table with the columns TYPE, LEXEME, LITERAL and SPAN,
/// one row per token, every column as wide as its longest cell.
pub fn dump_tokens(tokens: &[Token]) -> (r: String)
    ensures
        r@ == token_table(token_views(tokens@)),
{
    let ghost expected = table_rows(token_views(tokens@));
    let mut rows: Vec<Vec<Vec<char>>> = Vec::new();
    let header: Vec<Vec<char>> = vec![chars_of("TYPE"), chars_of("LEXEME"), chars_of("LITERAL"), chars_of("SPAN")];
    proof {
        assert forall|i: int| 0 <= i < 4 implies header[i].deep_view() == header[i]@ by {
            assert(header[i].deep_view() =~= header[i]@);
        }
        assert(header.deep_view() =~= header_cells());
    }
    rows.push(header);
    let mut k: usize = 0;
    assert(rows.deep_view() =~= expected.take(1));
    while k < tokens.len()
        invariant
            expected == table_rows(token_views(tokens@)),
            k <= tokens.len(),
            rows.deep_view() == expected.take(k + 1),
            rows.len() == k + 1,
            forall|r: int| 0 <= r < rows.len() ==> (#[trigger] rows[r]).len() == 4,
        decreases tokens.len() - k,
    {
        let cells = cells_of(&tokens[k]);
        let ghost before = rows.deep_view();
        rows.push(cells);
        proof {
            assert(rows.deep_view() =~= before.push(cells.deep_view()));
            assert(expected[k + 1] == token_cells(tokens@[k as int]@));
            assert(expected.take(k + 2) =~= expected.take(k + 1).push(expected[k + 1]));
        }
        k += 1;
    }
    assert(expected.take(tokens.len() + 1) =~= expected);
    let ghost dv = rows.deep_view();
    let mut widths: Vec<usize> = Vec::new();
    widths.push(column_width_of(&rows, 0));
    widths.push(column_width_of(&rows, 1));
    widths.push(column_width_of(&rows, 2));
    widths.push(column_width_of(&rows, 3));
    let ghost wv = widths@.map_values(|w: usize| w as nat);
    assert(wv =~= Seq::new(4, |i: int| column_width(dv, i)));
    let mut out: Vec<char> = Vec::new();
    let mut r: usize = 0;
    while r < rows.len()
        invariant
            dv == rows.deep_view(),
            wv == widths@.map_values(|w: usize| w as nat),
            widths.len() == 4,
            r <= rows.len(),
            forall|r: int| 0 <= r < rows.len() ==> (#[trigger] rows[r]).len() == 4,
            out@ == render_rows(dv.take(r as int), wv),
        decreases rows.len() - r,
    {
        assert(dv[r as int] == rows[r as int].deep_view());
        push_row(&mut out, &rows[r], &widths);
        assert(dv.take(r + 1).drop_last() =~= dv.take(r as int));
        r += 1;
    }
    assert(dv.take(rows.len() as int) =~= dv);
    string_of_chars(&out)
}

pub proof fn lemma_in_base_no_control(n: nat, b: nat)
    requires
        2 <= b <= 16,
    ensures
        forall|k: int| 0 <= k < in_base(n, b).len() ==> !is_control(#[trigger] in_base(n, b)[k]),
    decreases n,
{
    if n >= b {
        assert(n / b < n) by (nonlinear_arith)
            requires
                b >= 2,
                n >= b,
        ;
        lemma_in_base_no_control(n / b, b);
        assert(n % b < b) by (nonlinear_arith)
            requires
                b >= 2,
        ;
        let d = n % b;
        assert(!is_control(digit_char(d)));
        assert forall|k: int| 0 <= k < in_base(n, b).len() implies !is_control(#[trigger] in_base(n, b)[k]) by {
            if k < in_base(n / b, b).len() {
                assert(in_base(n, b)[k] == in_base(n / b, b)[k]);
            }
        }
    } else {
        assert(!is_control(digit_char(n)));
    }
}

/// Shown text holds no control characters, so no line breaks or tabs.
pub proof fn lemma_escape_no_control(s: Seq<char>)
    ensures
        forall|k: int| 0 <= k < escape(s).len() ==> !is_control(#[trigger] escape(s)[k]),
    decreases s.len(),
{
    if s.len() > 0 {
        lemma_escape_no_control(s.drop_last());
        let c = s.last();
        let e = escape_char(c);
        if is_control(c) && c != '\\' && c != '\n' && c != '\r' && c != '\t' {
            lemma_in_base_no_control((c as u32) as nat, 16);
            assert forall|k: int| 0 <= k < e.len() implies !is_control(#[trigger] e[k]) by {
                if k >= 2 {
                    assert(e[k] == hex((c as u32) as nat)[k - 2]);
                }
            }
        }
        assert forall|k: int| 0 <= k < escape(s).len() implies !is_control(#[trigger] escape(s)[k]) by {
            if k < escape(s.drop_last()).len() {
                assert(escape(s)[k] == escape(s.drop_last())[k]);
            } else {
                assert(escape(s)[k] == e[k - escape(s.drop_last()).len()]);
            }
        }
    }
}

/// Text no longer than `max` is kept as it is; longer text is cut down to
/// at most `max` characters, `max` being at least 1.
pub proof fn lemma_truncated_fits(s: Seq<char>, max: nat)
    ensures
        s.len() <= max ==> truncated(s, max) == s,
        max >= 1 ==> truncated(s, max).len() <= max,
{
}

proof fn lemma_no_newline_count(s: Seq<char>)
    requires
        no_newline(s),
    ensures
        count_char(s, '\n') == 0,
    decreases s.len(),
{
    if s.len() > 0 {
        assert(no_newline(s.drop_last())) by {
            assert forall|k: int| 0 <= k < s.drop_last().len() implies #[trigger] s.drop_last()[k] != '\n' by {
                assert(s.drop_last()[k] == s[k]);
            }
        }
        lemma_no_newline_count(s.drop_last());
        assert(s.last() == s[s.len() - 1]);
    }
}

proof fn lemma_no_newline_concat(a: Seq<char>, b: Seq<char>)
    requires
        no_newline(a),
        no_newline(b),
    ensures
        no_newline(a + b),
{
    assert forall|k: int| 0 <= k < (a + b).len() implies #[trigger] (a + b)[k] != '\n' by {
        if k < a.len() {
            assert((a + b)[k] == a[k]);
        } else {
            assert((a + b)[k] == b[k - a.len()]);
        }
    }
}

proof fn lemma_no_control_one_line(s: Seq<char>)
    requires
        forall|k: int| 0 <= k < s.len() ==> !is_control(#[trigger] s[k]),
    ensures
        no_newline(s),
{
    assert forall|k: int| 0 <= k < s.len() implies #[trigger] s[k] != '\n' by {
        assert(!is_control(s[k]));
    }
}

proof fn lemma_truncated_one_line(s: Seq<char>, max: nat)
    requires
        no_newline(s),
    ensures
        no_newline(truncated(s, max)),
{
    if s.len() > max {
        let tail: nat = if max / 3 < 6 { max / 3 } else { 6 };
        let head: nat = if max >= tail + 3 { (max - (tail + 3)) as nat } else { 0 };
        let a = s.take(head as int);
        let b = s.skip(s.len() - tail);
        assert(no_newline(a)) by {
            assert forall|k: int| 0 <= k < a.len() implies #[trigger] a[k] != '\n' by {
                assert(a[k] == s[k]);
            }
        }
        assert(no_newline(b)) by {
            assert forall|k: int| 0 <= k < b.len() implies #[trigger] b[k] != '\n' by {
                assert(b[k] == s[s.len() - tail + k]);
            }
        }
        lemma_no_newline_concat(a, seq!['\u{2026}']);
        lemma_no_newline_concat(a + seq!['\u{2026}'], b);
    }
}

proof fn lemma_cells_one_line(t: TokenView)
    ensures
        forall|i: int| 0 <= i < 4 ==> no_newline(#[trigger] token_cells(t)[i]),
{
    lemma_type_display_one_line(t.token_type);
    lemma_escape_no_control(t.lexeme);
    lemma_no_control_one_line(escape(t.lexeme));
    lemma_truncated_one_line(escape(t.lexeme), MAX_CELL as nat);
    if let Some(l) = t.literal {
        lemma_escape_no_control(l);
        lemma_no_control_one_line(escape(l));
        lemma_truncated_one_line(escape(l), MAX_CELL as nat);
    }
    lemma_in_base_no_control(t.span.line_start as nat, 10);
    lemma_in_base_no_control(t.span.col_start as nat, 10);
    lemma_in_base_no_control(t.span.line_end as nat, 10);
    lemma_in_base_no_control(t.span.col_end as nat, 10);
    lemma_no_control_one_line(decimal(t.span.line_start as nat));
    lemma_no_control_one_line(decimal(t.span.col_start as nat));
    lemma_no_control_one_line(decimal(t.span.line_end as nat));
    lemma_no_control_one_line(decimal(t.span.col_end as nat));
    let a = decimal(t.span.line_start as nat) + seq![':'];
    lemma_no_newline_concat(decimal(t.span.line_start as nat), seq![':']);
    lemma_no_newline_concat(a, decimal(t.span.col_start as nat));
    let b = a + decimal(t.span.col_start as nat);
    lemma_no_newline_concat(b, seq![' ', '-', ' ']);
    let c = b + seq![' ', '-', ' '];
    lemma_no_newline_concat(c, decimal(t.span.line_end as nat));
    let d = c + decimal(t.span.line_end as nat);
    lemma_no_newline_concat(d, seq![':']);
    lemma_no_newline_concat(d + seq![':'], decimal(t.span.col_end as nat));
    assert(span_text(t) == d + seq![':'] + decimal(t.span.col_end as nat));
}

proof fn lemma_cells_text_one_line(cells: Seq<Seq<char>>, widths: Seq<nat>, n: int)
    requires
        n <= cells.len(),
        forall|i: int| 0 <= i < cells.len() ==> no_newline(#[trigger] cells[i]),
    ensures
        no_newline(cells_text(cells, widths, n)),
    decreases n,
{
    if n > 0 {
        lemma_cells_text_one_line(cells, widths, n - 1);
        let w = widths[n - 1];
        let c = cells[n - 1];
        let fill: nat = if w > c.len() { (w - c.len()) as nat } else { 0 };
        assert(no_newline(spaces(fill)));
        assert(no_newline(spaces(2)));
        lemma_no_newline_concat(c, spaces(fill));
        lemma_no_newline_concat(c + spaces(fill), spaces(2));
        lemma_no_newline_concat(cells_text(cells, widths, n - 1), padded(c, w));
    }
}

proof fn lemma_trim_spaces_one_line(s: Seq<char>)
    requires
        no_newline(s),
    ensures
        no_newline(trim_spaces(s)),
    decreases s.len(),
{
    if s.len() > 0 && s.last() == ' ' {
        assert(no_newline(s.drop_last())) by {
            assert forall|k: int| 0 <= k < s.drop_last().len() implies #[trigger] s.drop_last()[k] != '\n' by {
                assert(s.drop_last()[k] == s[k]);
            }
        }
        lemma_trim_spaces_one_line(s.drop_last());
    }
}

proof fn lemma_render_rows_lines(rows: Seq<Seq<Seq<char>>>, widths: Seq<nat>)
    requires
        forall|r: int, i: int| 0 <= r < rows.len() && 0 <= i < rows[r].len() ==> no_newline(#[trigger] rows[r][i]),
    ensures
        count_char(render_rows(rows, widths), '\n') == rows.len(),
    decreases rows.len(),
{
    if rows.len() > 0 {
        let last = rows.last();
        assert(forall|r: int, i: int| 0 <= r < rows.drop_last().len() && 0 <= i < rows.drop_last()[r].len()
            ==> #[trigger] rows.drop_last()[r][i] == rows[r][i]);
        lemma_render_rows_lines(rows.drop_last(), widths);
        assert(forall|i: int| 0 <= i < last.len() ==> #[trigger] last[i] == rows[rows.len() - 1][i]);
        lemma_cells_text_one_line(last, widths, last.len() as int);
        let body = trim_spaces(cells_text(last, widths, last.len() as int));
        lemma_trim_spaces_one_line(cells_text(last, widths, last.len() as int));
        lemma_no_newline_count(body);
        lemma_count_char_append(body, seq!['\n'], '\n');
        assert(count_char(seq!['\n'], '\n') == 1) by {
            assert(seq!['\n'].drop_last() =~= Seq::<char>::empty());
            assert(count_char(Seq::<char>::empty(), '\n') == 0);
            assert(seq!['\n'].last() == '\n');
        }
        lemma_count_char_append(render_rows(rows.drop_last(), widths), render_row(last, widths), '\n');
    }
}

/// The table of `n` tokens is `n + 1` lines: the header and one per token,
/// however the tokens' text looks.
pub proof fn lemma_token_table_lines(tokens: Seq<TokenView>)
    ensures
        count_char(token_table(tokens), '\n') == tokens.len() + 1,
{
    let rows = table_rows(tokens);
    reveal_strlit("TYPE");
    reveal_strlit("LEXEME");
    reveal_strlit("LITERAL");
    reveal_strlit("SPAN");
    assert forall|r: int, i: int| 0 <= r < rows.len() && 0 <= i < rows[r].len() implies no_newline(
        #[trigger] rows[r][i],
    ) by {
        if r == 0 {
            assert(rows[0] == header_cells());
        } else {
            assert(rows[r] == token_cells(tokens[r - 1]));
            lemma_cells_one_line(tokens[r - 1]);
        }
    }
    lemma_render_rows_lines(rows, Seq::new(4, |i: int| column_width(rows, i)));
}

/// Text with no control characters and no backslashes is shown as it is:
/// the same characters, in the same order.
pub proof fn lemma_plain_text_shown_unchanged(s: Seq<char>)
    requires
        forall|k: int| 0 <= k < s.len() ==> !is_control(#[trigger] s[k]) && s[k] != '\\',
    ensures
        escape(s) == s,
    decreases s.len(),
{
    if s.len() > 0 {
        assert(forall|k: int| 0 <= k < s.drop_last().len() ==> #[trigger] s.drop_last()[k] == s[k]);
        lemma_plain_text_shown_unchanged(s.drop_last());
        assert(s.last() == s[s.len() - 1]);
        assert(escape(s) =~= s.drop_last().push(s.last()));
        assert(s.drop_last().push(s.last()) =~= s);
    }
}

/// Showing never drops a character, and every backslash is doubled: the
/// shown text has at least one character per character of `s`, plus one per
/// backslash.
pub proof fn lemma_shown_text_keeps_characters(s: Seq<char>)
    ensures
        escape(s).len() >= s.len() + count_char(s, '\\'),
    decreases s.len(),
{
    if s.len() > 0 {
        lemma_shown_text_keeps_characters(s.drop_last());
    }
}

} // verus!
