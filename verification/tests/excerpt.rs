use rlox::excerpt::{error_excerpt, ExcerptLine};
use rlox::token::Span;

fn render(lines: &[ExcerptLine]) -> String {
    let mut out = String::new();
    for line in lines {
        match line {
            ExcerptLine::Context { pad, number, text } => {
                out += &format!("{}{} | {}\n", " ".repeat(*pad), number, String::from_utf8_lossy(text));
            }
            ExcerptLine::Marked { pad, number, before, marked, after, width, indent, carets } => {
                out += &format!(
                    "{}{} | {}[{}]{}\n",
                    " ".repeat(*pad),
                    number,
                    String::from_utf8_lossy(before),
                    String::from_utf8_lossy(marked),
                    String::from_utf8_lossy(after)
                );
                out += &format!("{} |{}{}\n", " ".repeat(*width), " ".repeat(*indent), "^".repeat(*carets));
            }
        }
    }
    out
}

#[test]
fn excerpt_around_a_span() {
    let source = "one\ntwo\nthree\nfour bad here\nfive\nsix\nseven\neight\nnine\nten\neleven";
    let span = Span { line_start: 4, col_start: 6, line_end: 4, col_end: 9 };
    let lines = error_excerpt(source.as_bytes(), &span);
    assert_eq!(lines.len(), 5);
    assert_eq!(render(&lines), "2 | two\n3 | three\n4 | four [bad] here\n  |      ^^^\n5 | five\n6 | six\n");
}

#[test]
fn excerpt_pads_line_numbers() {
    let source = "1\n2\n3\n4\n5\n6\n7\n8\n9\n10 x\n11";
    let span = Span { line_start: 9, col_start: 1, line_end: 9, col_end: 2 };
    let lines = error_excerpt(source.as_bytes(), &span);
    assert_eq!(render(&lines), " 7 | 7\n 8 | 8\n 9 | [9]\n   | ^\n10 | 10 x\n11 | 11\n");
}

#[test]
fn excerpt_at_the_start() {
    let source = "x";
    let span = Span { line_start: 1, col_start: 1, line_end: 1, col_end: 1 };
    let lines = error_excerpt(source.as_bytes(), &span);
    assert_eq!(render(&lines), "1 | []x\n  | \n");
}
