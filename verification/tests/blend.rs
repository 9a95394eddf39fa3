use rotext::blend::WhileInlineSegment;
use rotext::block::stack_wrapper::StackEntry;
use rotext::block::Parser;
use rotext::errors::Error;
use rotext::events::BlockEvent;
use rotext::utils::stack::{ArrayStack, VecStack};

#[test]
fn a_segment_ends_at_the_exit_of_its_block() {
    let input = b"a\n\nb";
    let mut parser: Parser<VecStack<StackEntry>> = Parser::new(input);
    assert!(matches!(parser.next(), Some(Ok(BlockEvent::EnterParagraph(_)))));
    let mut segment = WhileInlineSegment::new(parser);
    assert!(matches!(segment.next(), Some(BlockEvent::Unparsed(r)) if r == (0..1)));
    assert!(segment.next().is_none());
    let (mut parser, leftover, error) = segment.drop();
    assert!(matches!(leftover, Some(BlockEvent::ExitBlock(_))));
    assert!(error.is_none());
    assert!(matches!(parser.next(), Some(Ok(BlockEvent::EnterParagraph(_)))));
}

#[test]
fn a_segment_keeps_the_error_of_the_block_parser() {
    let input = b"> > >";
    let parser: Parser<ArrayStack<StackEntry, 2>> = Parser::new(input);
    let mut segment = WhileInlineSegment::new(parser);
    assert!(matches!(segment.next(), Some(BlockEvent::EnterBlockQuote(_))));
    assert!(matches!(segment.next(), Some(BlockEvent::EnterBlockQuote(_))));
    assert!(segment.next().is_none());
    let (_, leftover, error) = segment.drop();
    assert!(leftover.is_none());
    assert_eq!(error, Some(Error::OutOfStackSpace));
}

#[test]
fn a_segment_ends_with_the_input() {
    let input = b"";
    let parser: Parser<VecStack<StackEntry>> = Parser::new(input);
    let mut segment = WhileInlineSegment::new(parser);
    assert!(segment.next().is_none());
    let (_, leftover, error) = segment.drop();
    assert!(leftover.is_none());
    assert!(error.is_none());
}
