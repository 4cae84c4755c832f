//! The source lines shown with an error: the lines around a span, with the
//! spanned text of its first line marked.

use vstd::prelude::*;
use crate::text::{decimal, push_in_base};
use crate::token::Span;

verus! {

/// The lines of `s`: the text between newlines (byte 10), so one line more
/// than `s` has newlines.
pub open spec fn split_lines(s: Seq<u8>) -> Seq<Seq<u8>>
    decreases s.len(),
{
    if s.len() == 0 {
        seq![seq![]]
    } else {
        let prev = split_lines(s.drop_last());
        if s.last() == 10u8 {
            prev.push(seq![])
        } else {
            prev.update(prev.len() - 1, prev.last().push(s.last()))
        }
    }
}

pub proof fn lemma_split_lines_nonempty(s: Seq<u8>)
    ensures
        split_lines(s).len() >= 1,
        split_lines(s).len() <= s.len() + 1,
    decreases s.len(),
{
    if s.len() > 0 {
        lemma_split_lines_nonempty(s.drop_last());
    }
}

/// The number of decimal digits of `n`.
pub open spec fn digit_count(n: nat) -> nat {
    decimal(n).len()
}

/// The first line shown: two before the span's first line, but not before
/// line 1.
pub open spec fn first_shown(span: Span) -> int {
    if span.line_start >= 3 { span.line_start - 2 } else { 1 }
}

/// The last line shown: two after the span's last line, but not after the
/// last line of the text.
pub open spec fn last_shown(span: Span, line_count: int) -> int {
    if span.line_end + 2 <= line_count { span.line_end + 2 } else { line_count }
}

/// One line of an excerpt. A context line is shown as `pad` spaces, its
/// number, ` | ` and its text. The line where the span starts is shown the
/// same way with `marked` set apart between `before` and `after`, and below
/// it `width` spaces, ` |`, `indent` spaces and `carets` carets.
pub enum ExcerptLine {
    Context { pad: usize, number: u32, text: Vec<u8> },
    Marked {
        pad: usize,
        number: u32,
        before: Vec<u8>,
        marked: Vec<u8>,
        after: Vec<u8>,
        width: usize,
        indent: usize,
        carets: usize,
    },
}

/// The spanned text of its first line can be cut out: the span starts at a
/// column from 1 on and ends no earlier, at most just past the line's end.
pub open spec fn span_fits_line(span: Span, line: Seq<u8>) -> bool {
    1 <= span.col_start <= span.col_end <= line.len() + 1
}

/// `e` is how line `number` of `lines` is shown with `span`, the numbers of
/// the excerpt being `width` digits wide.
pub open spec fn shows_line(e: ExcerptLine, lines: Seq<Seq<u8>>, span: Span, number: int, width: nat) -> bool {
    let line = lines[number - 1];
    let pad: nat = if width > digit_count(number as nat) { (width - digit_count(number as nat)) as nat } else { 0 };
    if number != span.line_start {
        e matches ExcerptLine::Context { pad: p, number: n, text } && p == pad && n == number && text@ == line
    } else {
        let s = span.col_start - 1;
        let t = span.col_end - 1;
        e matches ExcerptLine::Marked { pad: p, number: n, before, marked, after, width: w, indent, carets }
            && p == pad && n == number && before@ == line.subrange(0, s) && marked@ == line.subrange(s, t)
            && after@ == line.subrange(t, line.len() as int) && w == width && indent == span.col_start
            && carets == span.col_end - span.col_start
    }
}

fn digits(n: u32) -> (d: usize)
    ensures
        d == digit_count(n as nat),
{
    let mut v: Vec<char> = Vec::new();
    push_in_base(&mut v, n, 10);
    v.len()
}

fn copy_range(v: &Vec<u8>, from: usize, to: usize) -> (r: Vec<u8>)
    requires
        from <= to <= v.len(),
    ensures
        r@ == v@.subrange(from as int, to as int),
{
    let mut r: Vec<u8> = Vec::new();
    let mut k = from;
    while k < to
        invariant
            from <= k <= to <= v.len(),
            r@ == v@.subrange(from as int, k as int),
        decreases to - k,
    {
        r.push(v[k]);
        k += 1;
        assert(r@ =~= v@.subrange(from as int, k as int));
    }
    r
}

fn lines_of(s: &[u8]) -> (lines: Vec<Vec<u8>>)
    ensures
        lines.len() == split_lines(s@).len(),
        forall|k: int| 0 <= k < lines.len() ==> (#[trigger] lines[k])@ == split_lines(s@)[k],
{
    let mut lines: Vec<Vec<u8>> = Vec::new();
    lines.push(Vec::new());
    let mut k: usize = 0;
    assert(s@.take(0) =~= Seq::<u8>::empty());
    while k < s.len()
        invariant
            k <= s.len(),
            lines.len() >= 1,
            lines.len() == split_lines(s@.take(k as int)).len(),
            forall|j: int| 0 <= j < lines.len() ==> (#[trigger] lines[j])@ == split_lines(s@.take(k as int))[j],
        decreases s.len() - k,
    {
        let b = s[k];
        let ghost before = split_lines(s@.take(k as int));
        assert(s@.take(k + 1).drop_last() =~= s@.take(k as int));
        assert(s@.take(k + 1).last() == b);
        if b == 10u8 {
            lines.push(Vec::new());
            assert(split_lines(s@.take(k + 1)) == before.push(seq![]));
            assert forall|j: int| 0 <= j < lines.len() implies (#[trigger] lines[j])@ == split_lines(s@.take(k + 1))[j] by {
                if j < lines.len() - 1 {
                    assert(lines[j]@ == before[j]);
                } else {
                    assert(lines[j]@ =~= Seq::<u8>::empty());
                }
            }
        } else {
            let ghost old_lines = lines@;
            let mut line = lines.pop().unwrap();
            line.push(b);
            lines.push(line);
            assert(split_lines(s@.take(k + 1)) == before.update(before.len() - 1, before.last().push(b)));
            assert forall|j: int| 0 <= j < lines.len() implies (#[trigger] lines[j])@ == split_lines(s@.take(k + 1))[j] by {
                if j < lines.len() - 1 {
                    assert(lines[j] == old_lines[j]);
                } else {
                    assert(old_lines[j]@ == before[j]);
                }
            }
        }
        k += 1;
    }
    assert(s@.take(s.len() as int) =~= s@);
    lines
}

/// The lines shown with an error at `span` in `file_contents`: from two
/// lines before the span's first line to two lines after its last line, as
/// far as the text goes, each after its number padded to the width of the
/// largest number shown; the span's first line has the spanned text marked.
pub fn error_excerpt(file_contents: &[u8], span: &Span) -> (r: Vec<ExcerptLine>)
    requires
        file_contents.len() < u32::MAX,
        span.line_end + 2 <= u32::MAX,
        ({
            let lines = split_lines(file_contents@);
            first_shown(*span) <= span.line_start <= last_shown(*span, lines.len() as int)
                ==> span_fits_line(*span, lines[span.line_start - 1])
        }),
    ensures
        ({
            let lines = split_lines(file_contents@);
            let first = first_shown(*span);
            let last = last_shown(*span, lines.len() as int);
            &&& r.len() == if last >= first { last - first + 1 } else { 0 }
            &&& forall|k: int| 0 <= k < r.len() ==> shows_line(
                #[trigger] r[k],
                lines,
                *span,
                first + k,
                digit_count(last as nat),
            )
        }),
{
    let lines = lines_of(file_contents);
    let ghost lv = split_lines(file_contents@);
    proof {
        lemma_split_lines_nonempty(file_contents@);
    }
    let first: u32 = if span.line_start >= 3 { span.line_start - 2 } else { 1 };
    let line_count: u32 = lines.len() as u32;
    let last: u32 = if span.line_end + 2 <= line_count { span.line_end + 2 } else { line_count };
    let width = digits(last);
    let mut out: Vec<ExcerptLine> = Vec::new();
    if first > last {
        return out;
    }
    let mut i: u64 = first as u64;
    while i <= last as u64
        invariant
            lv == split_lines(file_contents@),
            lines.len() == lv.len(),
            forall|k: int| 0 <= k < lines.len() ==> (#[trigger] lines[k])@ == lv[k],
            1 <= first <= i,
            first <= last + 1,
            i <= last + 1,
            last <= lines.len(),
            last == last_shown(*span, lv.len() as int),
            first == first_shown(*span),
            width == digit_count(last as nat),
            first_shown(*span) <= span.line_start <= last_shown(*span, lv.len() as int)
                ==> span_fits_line(*span, lv[span.line_start - 1]),
            out.len() == i - first,
            forall|k: int| 0 <= k < out.len() ==> shows_line(#[trigger] out[k], lv, *span, first + k, width as nat),
        decreases last + 1 - i,
    {
        let number = i as u32;
        let d = digits(number);
        let pad: usize = if width > d { width - d } else { 0 };
        let line = &lines[(i - 1) as usize];
        assert(lv[i - 1] == line@);
        let e = if number != span.line_start {
            ExcerptLine::Context { pad, number, text: copy_range(line, 0, line.len()) }
        } else {
            let start = span.col_start as usize;
            let end = span.col_end as usize;
            ExcerptLine::Marked {
                pad,
                number,
                before: copy_range(line, 0, start - 1),
                marked: copy_range(line, start - 1, end - 1),
                after: copy_range(line, end - 1, line.len()),
                width,
                indent: start,
                carets: end - start,
            }
        };
        assert(line@.subrange(0, line@.len() as int) =~= line@);
        out.push(e);
        assert(shows_line(out[out.len() - 1], lv, *span, i as int, width as nat));
        i += 1;
    }
    out
}

/// The lines shown are exactly those that exist and lie within two lines of
/// the span: from two before its first line to two after its last line.
pub proof fn lemma_shown_window(span: Span, line_count: int, n: int)
    ensures
        (first_shown(span) <= n <= last_shown(span, line_count)) <==> (1 <= n <= line_count
            && span.line_start - 2 <= n <= span.line_end + 2),
{
}

/// A context line shows its line whole; the marked line shows its line cut
/// in three at the span's columns, the carets starting under the span's
/// first column and as many as the marked characters.
pub proof fn lemma_shown_line_parts(e: ExcerptLine, lines: Seq<Seq<u8>>, span: Span, number: int, width: nat)
    requires
        1 <= number <= lines.len(),
        shows_line(e, lines, span, number, width),
        number == span.line_start ==> span_fits_line(span, lines[number - 1]),
    ensures
        e matches ExcerptLine::Context { text, .. } ==> text@ == lines[number - 1],
        e matches ExcerptLine::Marked { before, marked, after, indent, carets, .. } ==> {
            &&& before@ + marked@ + after@ == lines[number - 1]
            &&& before@.len() + 1 == span.col_start
            &&& indent == span.col_start
            &&& carets == marked@.len()
        },
{
    if let ExcerptLine::Marked { before, marked, after, .. } = e {
        let line = lines[number - 1];
        assert(before@ + marked@ + after@ =~= line);
    }
}

} // verus!
