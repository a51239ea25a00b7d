use clipmgr::markup::{
    is_whitespace, list_label, parse_inline_formatting, render_formatted_text, FormattedLine,
    InlineSpan, SpanStyle, MAX_LINES,
};

fn plain(s: &str) -> InlineSpan {
    InlineSpan { text: String::from(s), style: SpanStyle::Plain }
}

fn code(s: &str) -> InlineSpan {
    InlineSpan { text: String::from(s), style: SpanStyle::Code }
}

fn bold(s: &str) -> InlineSpan {
    InlineSpan { text: String::from(s), style: SpanStyle::Bold }
}

fn inline(line: &str) -> FormattedLine {
    FormattedLine::Inline(parse_inline_formatting(line))
}

#[test]
fn plain_text_is_one_span() {
    assert_eq!(parse_inline_formatting("just words"), vec![plain("just words")]);
    assert_eq!(parse_inline_formatting("a * b *c*"), vec![plain("a * b *c*")]);
}

#[test]
fn the_empty_line_is_one_empty_span() {
    assert_eq!(parse_inline_formatting(""), vec![plain("")]);
}

#[test]
fn backticks_mark_code() {
    assert_eq!(
        parse_inline_formatting("run `cargo test` now"),
        vec![plain("run "), code("`cargo test`"), plain(" now")]
    );
    assert_eq!(parse_inline_formatting("`a``b`"), vec![code("`a`"), code("`b`")]);
    assert_eq!(parse_inline_formatting("``"), vec![code("``")]);
}

#[test]
fn code_without_an_end_runs_to_the_end_of_the_line() {
    assert_eq!(parse_inline_formatting("x `open"), vec![plain("x "), code("`open`")]);
    assert_eq!(parse_inline_formatting("`"), vec![code("``")]);
}

#[test]
fn double_asterisks_mark_bold_text() {
    assert_eq!(
        parse_inline_formatting("a **b** c"),
        vec![plain("a "), bold("b"), plain(" c")]
    );
    assert_eq!(parse_inline_formatting("**b**"), vec![bold("b")]);
    assert_eq!(parse_inline_formatting("****"), vec![bold("")]);
    assert_eq!(parse_inline_formatting("**a*b**"), vec![bold("a*b")]);
    assert_eq!(parse_inline_formatting("**a***"), vec![bold("a"), plain("*")]);
}

#[test]
fn bold_without_an_end_is_plain_text() {
    assert_eq!(parse_inline_formatting("a **b c"), vec![plain("a "), plain("**b c")]);
    assert_eq!(parse_inline_formatting("**"), vec![plain("**")]);
    assert_eq!(parse_inline_formatting("**a*"), vec![plain("**a*")]);
    assert_eq!(parse_inline_formatting("a **b `c`"), vec![plain("a "), plain("**b `c`")]);
}

#[test]
fn marks_within_code_are_code() {
    assert_eq!(parse_inline_formatting("`**x**`"), vec![code("`**x**`")]);
    assert_eq!(parse_inline_formatting("**`x`**"), vec![bold("`x`")]);
}

#[test]
fn whitespace_is_what_std_calls_whitespace() {
    for u in 0..=0x10FFFFu32 {
        if let Some(c) = char::from_u32(u) {
            assert_eq!(is_whitespace(c), c.is_whitespace(), "{:x}", u);
        }
    }
}

#[test]
fn lines_are_told_apart_by_their_beginning() {
    let text = "# Title\n  ## Sub\n- item\n * other\n```rust\n    code\n\tcode\nplain **b**\n";
    assert_eq!(
        render_formatted_text(text),
        vec![
            FormattedLine::Heading1(String::from("# Title")),
            FormattedLine::Heading2(String::from("  ## Sub")),
            FormattedLine::Bullet(String::from("item")),
            FormattedLine::Bullet(String::from("other")),
            FormattedLine::Fence(String::from("```rust")),
            FormattedLine::Indented(String::from("    code")),
            FormattedLine::Indented(String::from("\tcode")),
            FormattedLine::Inline(vec![plain("plain "), bold("b")]),
        ]
    );
}

#[test]
fn a_mark_needs_its_blank() {
    assert_eq!(render_formatted_text("#Title"), vec![inline("#Title")]);
    assert_eq!(render_formatted_text("-item"), vec![inline("-item")]);
    assert_eq!(render_formatted_text("#"), vec![inline("#")]);
    assert_eq!(render_formatted_text("- "), vec![inline("- ")]);
    assert_eq!(render_formatted_text("- x "), vec![FormattedLine::Bullet(String::from("x"))]);
    assert_eq!(render_formatted_text("   "), vec![inline("   ")]);
    assert_eq!(render_formatted_text("     "), vec![FormattedLine::Indented(String::from("     "))]);
    assert_eq!(render_formatted_text("    # h"), vec![FormattedLine::Heading1(String::from("    # h"))]);
    assert_eq!(render_formatted_text("\u{a0}# h"), vec![FormattedLine::Heading1(String::from("\u{a0}# h"))]);
}

#[test]
fn lines_end_as_std_ends_them() {
    for text in ["", "a", "a\n", "a\nb", "a\r\nb\r\n", "a\r", "\n", "\n\n", "a\n\nb", "\r\n", "a\rb\n", "x\r\r\n"] {
        let expected: Vec<FormattedLine> = text.lines().map(inline).collect();
        assert_eq!(render_formatted_text(text), expected, "{:?}", text);
    }
}

#[test]
fn no_more_than_a_hundred_lines_are_formatted() {
    let text: String = (0..250).map(|i| format!("line {}\n", i)).collect();
    let out = render_formatted_text(&text);
    assert_eq!(MAX_LINES, 100);
    assert_eq!(out.len(), 100);
    assert_eq!(out[99], inline("line 99"));
    let exact: String = (0..100).map(|i| format!("l{}\n", i)).collect();
    assert_eq!(render_formatted_text(&exact).len(), 100);
    let fewer: String = (0..99).map(|i| format!("l{}\n", i)).collect();
    assert_eq!(render_formatted_text(&fewer).len(), 99);
}

#[test]
fn a_long_preview_is_shortened_for_the_list() {
    let eighty = "x".repeat(80);
    assert_eq!(list_label(&eighty), eighty);
    let longer = "x".repeat(81);
    assert_eq!(list_label(&longer), format!("{}...", "x".repeat(77)));
    assert_eq!(list_label(&longer).len(), 80);
    assert_eq!(list_label(""), "");
    let accents = "\u{e9}".repeat(41);
    assert_eq!(list_label(&accents), format!("{}...", "\u{e9}".repeat(38)));
    let forty = "\u{e9}".repeat(40);
    assert_eq!(list_label(&forty), forty);
    let wide = format!("{}\u{1f600}{}", "x".repeat(75), "y".repeat(10));
    assert_eq!(list_label(&wide), format!("{}...", "x".repeat(75)));
}
