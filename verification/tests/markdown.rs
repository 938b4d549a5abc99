//! Markdown on the terminal.

use karakuri::markdown::{heading_level, render_inline, MarkdownRenderer};
use karakuri::ui::Ui;

/// What is left of a text without its escape codes.
fn strip_ansi(s: &str) -> String {
    let mut out = String::new();
    let mut chars = s.chars().peekable();
    while let Some(c) = chars.next() {
        if c == '\x1b' {
            for c2 in chars.by_ref() {
                if c2 == 'm' {
                    break;
                }
            }
        } else {
            out.push(c);
        }
    }
    out
}

/// Feeds one more piece of text and ends it.
fn flush_after(md: &mut MarkdownRenderer, extra: &str, ui: &Ui) -> String {
    md.push(extra, ui);
    md.flush(ui)
}

#[test]
fn fenced_code_renders_border_and_keeps_content_literal() {
    let ui = Ui::new(true);
    let mut md = MarkdownRenderer::new();
    let o1 = md.push("```rust\n", &ui);
    assert!(o1.contains('┄'), "fence should render as dim rule: {o1:?}");
    assert!(!o1.contains("```"));
    let o2 = md.push("let x = *not italic*;\n", &ui);
    assert!(
        o2.starts_with("\x1b[2m│ \x1b[0m"),
        "code line gets dim │ prefix: {o2:?}"
    );
    assert!(o2.contains("let x = *not italic*;"));
    assert!(
        !o2.contains("\x1b[3m"),
        "code content must not be italicized"
    );
    let o3 = md.push("```\n", &ui);
    assert!(o3.contains('┄'));
    assert!(!o3.contains("```"));
}

#[test]
fn unclosed_fence_flush_keeps_trailing_code() {
    let ui = Ui::new(true);
    let mut md = MarkdownRenderer::new();
    md.push("```\n", &ui);
    let tail = flush_after(&mut md, "let y = 2;", &ui);
    assert!(
        tail.contains("│ "),
        "trailing code line gets prefix: {tail:?}"
    );
    assert!(strip_ansi(&tail).contains("let y = 2;"));
}

#[test]
fn inline_styles_with_color_and_verbatim_without() {
    let ui = Ui::new(true);
    let mut md = MarkdownRenderer::new();
    let out = md.push("a `code` b **bold** c *it* d\n", &ui);
    assert!(
        out.contains("\x1b[36mcode\x1b[0m"),
        "inline code cyan: {out:?}"
    );
    assert!(out.contains("\x1b[1mbold\x1b[0m"), "bold: {out:?}");
    assert!(out.contains("\x1b[3mit\x1b[0m"), "italic: {out:?}");

    let ui0 = Ui::new(false);
    let mut md0 = MarkdownRenderer::new();
    let s = "a `code` b **bold** c *it* d\n";
    assert_eq!(md0.push(s, &ui0), s);
    assert_eq!(md0.flush(&ui0), "");
}

#[test]
fn block_level_styles_carry_sgr() {
    let ui = Ui::new(true);
    let mut md = MarkdownRenderer::new();
    let h = md.push("# Title\n", &ui);
    assert!(
        h.contains("\x1b[36m\x1b[1m# Title\x1b[0m"),
        "heading cyan+bold: {h:?}"
    );

    let q = md.push("> quote\n", &ui);
    assert!(
        q.contains("\x1b[3m") && q.contains("\x1b[2m"),
        "quote dim+italic: {q:?}"
    );
    assert!(strip_ansi(&q).contains("> quote"));

    let l = md.push("- item\n", &ui);
    assert!(l.starts_with("\x1b[2m- \x1b[0m"), "list marker dim: {l:?}");
    assert!(strip_ansi(&l).contains("- item"));

    let ol = md.push("3. third\n", &ui);
    assert!(
        ol.starts_with("\x1b[2m3. \x1b[0m"),
        "ordered marker dim: {ol:?}"
    );
}

#[test]
fn half_line_buffered_until_newline_or_flush() {
    let ui = Ui::new(true);
    let mut md = MarkdownRenderer::new();
    assert_eq!(md.push("foo", &ui), "");
    let mid = md.push("bar\nbaz", &ui);
    assert_eq!(mid, "foobar\n");
    assert_eq!(md.flush(&ui), "baz");
}

#[test]
fn no_characters_lost_on_degenerate_markup() {
    let ui = Ui::new(true);
    let cases = [
        "plain * star _ under ` tick",
        "foo_bar_baz",
        "a ** b __ c",
        "**unclosed bold",
        "*unclosed italic",
        "trailing backtick `",
    ];
    for c in cases {
        let mut md = MarkdownRenderer::new();
        let out = md.push(&format!("{c}\n"), &ui);
        assert_eq!(
            strip_ansi(&out),
            format!("{c}\n"),
            "degenerate markup must round-trip verbatim: {c:?}"
        );
    }
}

#[test]
fn intraword_underscore_not_italic_but_leading_is() {
    let ui = Ui::new(true);
    let mut md = MarkdownRenderer::new();
    let intra = md.push("foo_bar_baz\n", &ui);
    assert!(
        !intra.contains("\x1b[3m"),
        "intraword underscore must not italicize: {intra:?}"
    );

    let lead = md.push("_hi_ there\n", &ui);
    assert!(
        lead.contains("\x1b[3mhi\x1b[0m"),
        "leading _hi_ should italicize: {lead:?}"
    );
}

#[test]
fn pieces_do_not_matter() {
    let ui = Ui::new(true);
    let text = "# T\r\n- *a* b\n```\ncode\n```\n> q\nend `x`";
    let mut whole = MarkdownRenderer::new();
    let mut expected = whole.push(text, &ui);
    expected.push_str(&whole.flush(&ui));
    for cut in 0..text.len() {
        let mut md = MarkdownRenderer::default();
        let mut out = md.push(&text[..cut], &ui);
        out.push_str(&md.push(&text[cut..], &ui));
        out.push_str(&md.flush(&ui));
        assert_eq!(out, expected, "cut at {cut}");
    }
}

#[test]
fn inline_spans_are_flat() {
    let ui = Ui::new(true);
    assert_eq!(
        render_inline("`a*b*` **c_d** _e f_ *g**h*", &ui),
        "\x1b[36ma*b*\x1b[0m \x1b[1mc_d\x1b[0m \x1b[3me f\x1b[0m \x1b[3mg**h\x1b[0m"
    );
    assert_eq!(render_inline("`` **** é", &ui), "`` **** é");
    assert_eq!(render_inline("`x`", &Ui::new(false)), "x");
}

#[test]
fn headings_have_up_to_three_levels() {
    assert_eq!(heading_level("# a"), Some(1));
    assert_eq!(heading_level("### a"), Some(3));
    assert_eq!(heading_level("#### a"), None);
    assert_eq!(heading_level("#a"), None);
    assert_eq!(heading_level(""), None);
}

#[test]
fn lists_keep_their_indent() {
    let ui = Ui::new(true);
    let mut md = MarkdownRenderer::new();
    assert_eq!(md.push("  12. *x*\n", &ui), "  \x1b[2m12. \x1b[0m\x1b[3mx\x1b[0m\n");
    assert_eq!(md.push("\t+ y\n", &ui), "\t\x1b[2m+ \x1b[0my\n");
    assert_eq!(md.push("1.x\n", &ui), "1.x\n");
}

#[test]
fn carriage_returns_belong_to_the_line_ending() {
    let ui = Ui::new(true);
    let mut md = MarkdownRenderer::new();
    assert_eq!(md.push("a\r\n\r\n", &ui), "a\n\n");
    md.push("b\r", &ui);
    assert_eq!(md.flush(&ui), "b");
    assert_eq!(md.flush(&ui), "");
}
