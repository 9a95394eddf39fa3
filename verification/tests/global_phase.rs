use rotext::block::line::global_phase::{parse, parse_verbatim_escaping, Output};
use rotext::block::test_support::mocks::MockCursorContext;
use rotext::events::VerbatimEscaping;
use rotext::types::LineNumber;

fn ctx_at_start() -> MockCursorContext {
    MockCursorContext {
        cursor: 0,
        current_line: LineNumber::new(1),
    }
}

fn test_parse(input: &[u8], expected: Option<Output>, expected_ctx: MockCursorContext) {
    let mut ctx = ctx_at_start();
    let actual = parse(input, &mut ctx, input[0]);
    assert_eq!((expected, expected_ctx), (actual, ctx));
}

fn test_ve(input: &[u8], expected: VerbatimEscaping, expected_ctx: MockCursorContext) {
    let mut ctx = ctx_at_start();
    let actual = parse_verbatim_escaping(input, &mut ctx);
    assert_eq!((expected, expected_ctx), (actual, ctx));
}

fn ve(start: usize, end: usize, forced: bool, line: usize) -> VerbatimEscaping {
    VerbatimEscaping {
        content: start..end,
        is_closed_forcedly: forced,
        line_after: LineNumber::new(line),
    }
}

fn at(cursor: usize, line: usize) -> MockCursorContext {
    MockCursorContext {
        cursor,
        current_line: LineNumber::new(line),
    }
}

#[test]
fn it_works() {
    test_parse(
        b"<`foo`>",
        Some(Output::VerbatimEscaping(ve(2, 5, false, 1))),
        at(7, 1),
    );
}

#[test]
fn it_works_when_there_is_no_match() {
    test_parse(b"foo", None, at(0, 1));
    test_parse(b"<foo", None, at(0, 1));
}

#[test]
fn it_works_for_verbatim_escaping() {
    test_ve(b"foo`>", ve(0, 3, false, 1), at(5, 1));
    test_ve(b"foo`>_", ve(0, 3, false, 1), at(5, 1));
}

#[test]
fn it_works_with_spaces_at_edge() {
    test_ve(b" foo `>", ve(1, 4, false, 1), at(7, 1));
    test_ve(b"foo `>", ve(0, 3, false, 1), at(6, 1));
    test_ve(b" foo`>", ve(1, 4, false, 1), at(6, 1));
    test_ve(b"  foo  `>", ve(1, 6, false, 1), at(9, 1));
}

#[test]
fn it_works_with_multiple_backticks() {
    test_ve(b"`foo``>", ve(1, 4, false, 1), at(7, 1));
    test_ve(b"` ` ``>", ve(2, 3, false, 1), at(7, 1));
}

#[test]
fn it_works_when_closing_part_is_missed() {
    test_ve(b"", ve(0, 0, true, 1), at(0, 1));
    test_ve(b"foo", ve(0, 3, true, 1), at(3, 1));
    test_ve(b"foo ", ve(0, 4, true, 1), at(4, 1));
    test_ve(b"foo`", ve(0, 4, true, 1), at(4, 1));
    test_ve(b"`foo`>", ve(1, 6, true, 1), at(6, 1));
}

#[test]
fn it_works_with_multilines() {
    test_ve(b"foo\r`>", ve(0, 4, false, 2), at(6, 2));
    test_ve(b"foo\n`>", ve(0, 4, false, 2), at(6, 2));
    test_ve(b"foo\r\n`>", ve(0, 5, false, 2), at(7, 2));
    test_ve(b"``foo`\n```>", ve(2, 7, false, 2), at(11, 2));
}

#[test]
fn parse_skips_a_comment() {
    let mut ctx = ctx_at_start();
    let actual = parse(b"<% a <% b %> c %>d", &mut ctx, b'<');
    assert_eq!(actual, Some(Output::Nothing));
    assert_eq!(ctx, at(17, 1));
}

#[test]
fn parse_skips_verbatim_escaping_inside_a_comment() {
    let mut ctx = ctx_at_start();
    let actual = parse(b"<% <` %> `> %>", &mut ctx, b'<');
    assert_eq!(actual, Some(Output::Nothing));
    assert_eq!(ctx, at(14, 1));
}

#[test]
fn parse_leaves_an_unclosed_comment_at_the_end() {
    let mut ctx = ctx_at_start();
    let actual = parse(b"<% a\nb", &mut ctx, b'<');
    assert_eq!(actual, Some(Output::Nothing));
    assert_eq!(ctx, at(6, 2));
}
