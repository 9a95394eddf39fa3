use rotext::block::stack_wrapper::StackEntry;
use rotext::block::Parser;
use rotext::events::BlockEvent;
use rotext::types::BlockId;
use rotext::utils::stack::VecStack;

fn entered(ev: &BlockEvent) -> Option<BlockId> {
    match ev {
        BlockEvent::EnterParagraph(b)
        | BlockEvent::EnterHeading1(b)
        | BlockEvent::EnterHeading2(b)
        | BlockEvent::EnterHeading3(b)
        | BlockEvent::EnterHeading4(b)
        | BlockEvent::EnterHeading5(b)
        | BlockEvent::EnterHeading6(b)
        | BlockEvent::EnterBlockQuote(b)
        | BlockEvent::EnterOrderedList(b)
        | BlockEvent::EnterUnorderedList(b)
        | BlockEvent::EnterListItem(b)
        | BlockEvent::EnterDescriptionList(b)
        | BlockEvent::EnterDescriptionTerm(b)
        | BlockEvent::EnterDescriptionDetails(b)
        | BlockEvent::EnterCodeBlock(b)
        | BlockEvent::EnterTable(b) => Some(b.id),
        _ => None,
    }
}

#[test]
fn enters_and_exits_balance_and_each_exit_closes_the_innermost_block() {
    let input = "> # a\n> - b\n>   c\n\n```\nd\n```\n{|\n| e\n|}\n; f\n: g";
    let mut parser: Parser<VecStack<StackEntry>> = Parser::new(input.as_bytes());
    let mut open: Vec<BlockId> = vec![];
    let mut depth: i64 = 0;
    let mut count = 0;
    while let Some(ev) = parser.next() {
        let ev = ev.unwrap();
        count += 1;
        if let Some(id) = entered(&ev) {
            open.push(id);
            depth += 1;
        } else if let BlockEvent::ExitBlock(exit) = ev {
            assert_eq!(open.pop(), Some(exit.id));
            depth -= 1;
        }
        assert!(depth >= 0);
        assert_eq!(depth as usize, open.len());
    }
    assert!(count > 10);
    assert_eq!(depth, 0);
    assert!(open.is_empty());
}
