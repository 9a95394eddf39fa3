use rotext::block::stack_wrapper::StackEntry;
use rotext::block::Parser;
use rotext::errors::Error;
use rotext::events::{BlockEvent, EventType};
use rotext::utils::stack::{ArrayStack, Stack, VecStack};

type EventCase = (EventType, Option<String>);

fn parse_with_stack<TStack: Stack<StackEntry>>(input: &str) -> Result<Vec<EventCase>, Error> {
    let mut parser: Parser<TStack> = Parser::new(input.as_bytes());
    let mut actual = vec![];
    loop {
        match parser.next() {
            None => return Ok(actual),
            Some(Err(err)) => return Err(err),
            Some(Ok(ev)) => {
                let ev = ev.into_event();
                let content = ev.content(input.as_bytes()).map(|s| s.to_string());
                actual.push((ev.event_type(), content));
            }
        }
    }
}

fn expected_events(expected: &[(EventType, Option<&str>)]) -> Vec<EventCase> {
    expected
        .iter()
        .map(|(t, c)| (*t, c.map(|s| s.to_string())))
        .collect()
}

fn assert_parse_ok_and_output_matches_with_stack<TStack: Stack<StackEntry>>(
    input: &str,
    expected: &[(EventType, Option<&str>)],
) {
    assert_eq!(Ok(expected_events(expected)), parse_with_stack::<TStack>(input));
}

fn assert_parse_error_with_stack<TStack: Stack<StackEntry>>(input: &str, expected_error: Error) {
    assert_eq!(Err(expected_error), parse_with_stack::<TStack>(input));
}

struct Case {
    group: &'static str,
    input_variants: Vec<&'static str>,
    expected: Vec<(EventType, Option<&'static str>)>,
}

fn case(
    group: &'static str,
    input_variants: Vec<&'static str>,
    expected: Vec<(EventType, Option<&'static str>)>,
) -> Case {
    Case {
        group,
        input_variants,
        expected,
    }
}

fn cases() -> Vec<Case> {
    vec![
        case("空", vec![""], vec![]),
        case("段落", vec!["a", " a"], vec![(EventType::EnterParagraph, None), (EventType::Unparsed, Some("a")), (EventType::ExitBlock, None)]),
        case("段落", vec!["a "], vec![(EventType::EnterParagraph, None), (EventType::Unparsed, Some("a ")), (EventType::ExitBlock, None)]),
        case("段落", vec!["a\nb", "a\n␠b"], vec![(EventType::EnterParagraph, None), (EventType::Unparsed, Some("a")), (EventType::NewLine, None), (EventType::Unparsed, Some("b")), (EventType::ExitBlock, None)]),
        case("段落", vec!["a\n\nb", "a\n\n␠b"], vec![(EventType::EnterParagraph, None), (EventType::Unparsed, Some("a")), (EventType::ExitBlock, None), (EventType::EnterParagraph, None), (EventType::Unparsed, Some("b")), (EventType::ExitBlock, None)]),
        case("段落>段落与全局阶段语法的互动", vec!["a<`c`>"], vec![(EventType::EnterParagraph, None), (EventType::Unparsed, Some("a")), (EventType::VerbatimEscaping, Some("c")), (EventType::ExitBlock, None)]),
        case("段落>段落与全局阶段语法的互动", vec!["<`c`>b"], vec![(EventType::EnterParagraph, None), (EventType::VerbatimEscaping, Some("c")), (EventType::Unparsed, Some("b")), (EventType::ExitBlock, None)]),
        case("段落>段落与全局阶段语法的互动", vec!["a<`c`>b"], vec![(EventType::EnterParagraph, None), (EventType::Unparsed, Some("a")), (EventType::VerbatimEscaping, Some("c")), (EventType::Unparsed, Some("b")), (EventType::ExitBlock, None)]),
        case("段落>段落与全局阶段语法的互动", vec!["a\n<`c`>", "a\n␠<`c`>"], vec![(EventType::EnterParagraph, None), (EventType::Unparsed, Some("a")), (EventType::NewLine, None), (EventType::VerbatimEscaping, Some("c")), (EventType::ExitBlock, None)]),
        case("段落>“继续段落” 的优先级高于 “开启其他块级语法” 的优先级", vec!["a\n---"], vec![(EventType::EnterParagraph, None), (EventType::Unparsed, Some("a")), (EventType::NewLine, None), (EventType::Unparsed, Some("---")), (EventType::ExitBlock, None)]),
        case("段落>“继续段落” 的优先级高于 “开启其他块级语法” 的优先级", vec!["a\n> b"], vec![(EventType::EnterParagraph, None), (EventType::Unparsed, Some("a")), (EventType::NewLine, None), (EventType::Unparsed, Some("> b")), (EventType::ExitBlock, None)]),
        case("分割线", vec!["---", "----"], vec![(EventType::ThematicBreak, None)]),
        case("分割线", vec!["--"], vec![(EventType::EnterParagraph, None), (EventType::Unparsed, Some("--")), (EventType::ExitBlock, None)]),
        case("分割线", vec!["---\n---", "--- ---"], vec![(EventType::ThematicBreak, None), (EventType::ThematicBreak, None)]),
        case("分割线", vec!["---\na", "---a", "--- a"], vec![(EventType::ThematicBreak, None), (EventType::EnterParagraph, None), (EventType::Unparsed, Some("a")), (EventType::ExitBlock, None)]),
        case("分割线>分割线与全局阶段语法的互动", vec!["---\n<`a`>", "---<`a`>", "--- <`a`>"], vec![(EventType::ThematicBreak, None), (EventType::EnterParagraph, None), (EventType::VerbatimEscaping, Some("a")), (EventType::ExitBlock, None)]),
        case("标题", vec!["= a ="], vec![(EventType::EnterHeading1, None), (EventType::Unparsed, Some("a")), (EventType::ExitBlock, None)]),
        case("标题", vec!["== a =="], vec![(EventType::EnterHeading2, None), (EventType::Unparsed, Some("a")), (EventType::ExitBlock, None)]),
        case("标题", vec!["=== a ==="], vec![(EventType::EnterHeading3, None), (EventType::Unparsed, Some("a")), (EventType::ExitBlock, None)]),
        case("标题", vec!["==== a ===="], vec![(EventType::EnterHeading4, None), (EventType::Unparsed, Some("a")), (EventType::ExitBlock, None)]),
        case("标题", vec!["===== a ====="], vec![(EventType::EnterHeading5, None), (EventType::Unparsed, Some("a")), (EventType::ExitBlock, None)]),
        case("标题", vec!["====== a ======"], vec![(EventType::EnterHeading6, None), (EventType::Unparsed, Some("a")), (EventType::ExitBlock, None)]),
        case("标题", vec!["== a"], vec![(EventType::EnterHeading2, None), (EventType::Unparsed, Some("a")), (EventType::ExitBlock, None)]),
        case("标题", vec!["== a ="], vec![(EventType::EnterHeading2, None), (EventType::Unparsed, Some("a =")), (EventType::ExitBlock, None)]),
        case("标题", vec!["== a ==="], vec![(EventType::EnterHeading2, None), (EventType::Unparsed, Some("a ===")), (EventType::ExitBlock, None)]),
        case("标题", vec!["==  a  =="], vec![(EventType::EnterHeading2, None), (EventType::Unparsed, Some(" a ")), (EventType::ExitBlock, None)]),
        case("标题", vec!["== a ==\nb", "== a ==\n\nb"], vec![(EventType::EnterHeading2, None), (EventType::Unparsed, Some("a")), (EventType::ExitBlock, None), (EventType::EnterParagraph, None), (EventType::Unparsed, Some("b")), (EventType::ExitBlock, None)]),
        case("标题", vec!["== a ==\n=== b ===", "== a ==\n\n=== b ==="], vec![(EventType::EnterHeading2, None), (EventType::Unparsed, Some("a")), (EventType::ExitBlock, None), (EventType::EnterHeading3, None), (EventType::Unparsed, Some("b")), (EventType::ExitBlock, None)]),
        case("标题", vec!["==a =="], vec![(EventType::EnterParagraph, None), (EventType::Unparsed, Some("==a ==")), (EventType::ExitBlock, None)]),
        case("标题", vec!["== a=="], vec![(EventType::EnterHeading2, None), (EventType::Unparsed, Some("a==")), (EventType::ExitBlock, None)]),
        case("标题", vec!["== a == "], vec![(EventType::EnterHeading2, None), (EventType::Unparsed, Some("a == ")), (EventType::ExitBlock, None)]),
        case("标题", vec!["== a ==b"], vec![(EventType::EnterHeading2, None), (EventType::Unparsed, Some("a ==b")), (EventType::ExitBlock, None)]),
        case("标题", vec!["== a == b =="], vec![(EventType::EnterHeading2, None), (EventType::Unparsed, Some("a == b")), (EventType::ExitBlock, None)]),
        case("标题", vec!["======= a ======="], vec![(EventType::EnterParagraph, None), (EventType::Unparsed, Some("======= a =======")), (EventType::ExitBlock, None)]),
        case("标题", vec!["== <`c`> =="], vec![(EventType::EnterHeading2, None), (EventType::VerbatimEscaping, Some("c")), (EventType::ExitBlock, None)]),
        case("标题", vec!["== a<`c`>b =="], vec![(EventType::EnterHeading2, None), (EventType::Unparsed, Some("a")), (EventType::VerbatimEscaping, Some("c")), (EventType::Unparsed, Some("b")), (EventType::ExitBlock, None)]),
        case("列表", vec!["# 1"], vec![(EventType::EnterOrderedList, None), (EventType::EnterListItem, None), (EventType::EnterParagraph, None), (EventType::Unparsed, Some("1")), (EventType::ExitBlock, None), (EventType::ExitBlock, None), (EventType::ExitBlock, None)]),
        case("列表", vec!["* 1"], vec![(EventType::EnterUnorderedList, None), (EventType::EnterListItem, None), (EventType::EnterParagraph, None), (EventType::Unparsed, Some("1")), (EventType::ExitBlock, None), (EventType::ExitBlock, None), (EventType::ExitBlock, None)]),
        case("列表", vec!["# 1\n# 2"], vec![(EventType::EnterOrderedList, None), (EventType::EnterListItem, None), (EventType::EnterParagraph, None), (EventType::Unparsed, Some("1")), (EventType::ExitBlock, None), (EventType::ExitBlock, None), (EventType::EnterListItem, None), (EventType::EnterParagraph, None), (EventType::Unparsed, Some("2")), (EventType::ExitBlock, None), (EventType::ExitBlock, None), (EventType::ExitBlock, None)]),
        case("列表", vec!["* a\n* b\n* c"], vec![(EventType::EnterUnorderedList, None), (EventType::EnterListItem, None), (EventType::EnterParagraph, None), (EventType::Unparsed, Some("a")), (EventType::ExitBlock, None), (EventType::ExitBlock, None), (EventType::EnterListItem, None), (EventType::EnterParagraph, None), (EventType::Unparsed, Some("b")), (EventType::ExitBlock, None), (EventType::ExitBlock, None), (EventType::EnterListItem, None), (EventType::EnterParagraph, None), (EventType::Unparsed, Some("c")), (EventType::ExitBlock, None), (EventType::ExitBlock, None), (EventType::ExitBlock, None)]),
        case("列表", vec!["# 1\n\n# 2"], vec![(EventType::EnterOrderedList, None), (EventType::EnterListItem, None), (EventType::EnterParagraph, None), (EventType::Unparsed, Some("1")), (EventType::ExitBlock, None), (EventType::ExitBlock, None), (EventType::ExitBlock, None), (EventType::EnterOrderedList, None), (EventType::EnterListItem, None), (EventType::EnterParagraph, None), (EventType::Unparsed, Some("2")), (EventType::ExitBlock, None), (EventType::ExitBlock, None), (EventType::ExitBlock, None)]),
        case("列表", vec!["# # 1.1"], vec![(EventType::EnterOrderedList, None), (EventType::EnterListItem, None), (EventType::EnterOrderedList, None), (EventType::EnterListItem, None), (EventType::EnterParagraph, None), (EventType::Unparsed, Some("1.1")), (EventType::ExitBlock, None), (EventType::ExitBlock, None), (EventType::ExitBlock, None), (EventType::ExitBlock, None), (EventType::ExitBlock, None)]),
        case("列表", vec!["# # 1.1\n# 2"], vec![(EventType::EnterOrderedList, None), (EventType::EnterListItem, None), (EventType::EnterOrderedList, None), (EventType::EnterListItem, None), (EventType::EnterParagraph, None), (EventType::Unparsed, Some("1.1")), (EventType::ExitBlock, None), (EventType::ExitBlock, None), (EventType::ExitBlock, None), (EventType::ExitBlock, None), (EventType::EnterListItem, None), (EventType::EnterParagraph, None), (EventType::Unparsed, Some("2")), (EventType::ExitBlock, None), (EventType::ExitBlock, None), (EventType::ExitBlock, None)]),
        case("列表", vec!["# # 1.1\n#\n# 2"], vec![(EventType::EnterOrderedList, None), (EventType::EnterListItem, None), (EventType::EnterOrderedList, None), (EventType::EnterListItem, None), (EventType::EnterParagraph, None), (EventType::Unparsed, Some("1.1")), (EventType::ExitBlock, None), (EventType::ExitBlock, None), (EventType::ExitBlock, None), (EventType::ExitBlock, None), (EventType::EnterListItem, None), (EventType::ExitBlock, None), (EventType::EnterListItem, None), (EventType::EnterParagraph, None), (EventType::Unparsed, Some("2")), (EventType::ExitBlock, None), (EventType::ExitBlock, None), (EventType::ExitBlock, None)]),
        case("列表", vec!["# 1\n# # 2.1"], vec![(EventType::EnterOrderedList, None), (EventType::EnterListItem, None), (EventType::EnterParagraph, None), (EventType::Unparsed, Some("1")), (EventType::ExitBlock, None), (EventType::ExitBlock, None), (EventType::EnterListItem, None), (EventType::EnterOrderedList, None), (EventType::EnterListItem, None), (EventType::EnterParagraph, None), (EventType::Unparsed, Some("2.1")), (EventType::ExitBlock, None), (EventType::ExitBlock, None), (EventType::ExitBlock, None), (EventType::ExitBlock, None), (EventType::ExitBlock, None)]),
        case("列表", vec!["# 1\n#\n# # 2.1"], vec![(EventType::EnterOrderedList, None), (EventType::EnterListItem, None), (EventType::EnterParagraph, None), (EventType::Unparsed, Some("1")), (EventType::ExitBlock, None), (EventType::ExitBlock, None), (EventType::EnterListItem, None), (EventType::ExitBlock, None), (EventType::EnterListItem, None), (EventType::EnterOrderedList, None), (EventType::EnterListItem, None), (EventType::EnterParagraph, None), (EventType::Unparsed, Some("2.1")), (EventType::ExitBlock, None), (EventType::ExitBlock, None), (EventType::ExitBlock, None), (EventType::ExitBlock, None), (EventType::ExitBlock, None)]),
        case("列表", vec!["# 1\n# # 2.1\n# 3"], vec![(EventType::EnterOrderedList, None), (EventType::EnterListItem, None), (EventType::EnterParagraph, None), (EventType::Unparsed, Some("1")), (EventType::ExitBlock, None), (EventType::ExitBlock, None), (EventType::EnterListItem, None), (EventType::EnterOrderedList, None), (EventType::EnterListItem, None), (EventType::EnterParagraph, None), (EventType::Unparsed, Some("2.1")), (EventType::ExitBlock, None), (EventType::ExitBlock, None), (EventType::ExitBlock, None), (EventType::ExitBlock, None), (EventType::EnterListItem, None), (EventType::EnterParagraph, None), (EventType::Unparsed, Some("3")), (EventType::ExitBlock, None), (EventType::ExitBlock, None), (EventType::ExitBlock, None)]),
        case("列表", vec!["# # 1.1\n# 2\n# # 3.1"], vec![(EventType::EnterOrderedList, None), (EventType::EnterListItem, None), (EventType::EnterOrderedList, None), (EventType::EnterListItem, None), (EventType::EnterParagraph, None), (EventType::Unparsed, Some("1.1")), (EventType::ExitBlock, None), (EventType::ExitBlock, None), (EventType::ExitBlock, None), (EventType::ExitBlock, None), (EventType::EnterListItem, None), (EventType::EnterParagraph, None), (EventType::Unparsed, Some("2")), (EventType::ExitBlock, None), (EventType::ExitBlock, None), (EventType::EnterListItem, None), (EventType::EnterOrderedList, None), (EventType::EnterListItem, None), (EventType::EnterParagraph, None), (EventType::Unparsed, Some("3.1")), (EventType::ExitBlock, None), (EventType::ExitBlock, None), (EventType::ExitBlock, None), (EventType::ExitBlock, None), (EventType::ExitBlock, None)]),
        case("列表>不同种类的列表", vec!["# 1\n* a", "# 1\n\n* a"], vec![(EventType::EnterOrderedList, None), (EventType::EnterListItem, None), (EventType::EnterParagraph, None), (EventType::Unparsed, Some("1")), (EventType::ExitBlock, None), (EventType::ExitBlock, None), (EventType::ExitBlock, None), (EventType::EnterUnorderedList, None), (EventType::EnterListItem, None), (EventType::EnterParagraph, None), (EventType::Unparsed, Some("a")), (EventType::ExitBlock, None), (EventType::ExitBlock, None), (EventType::ExitBlock, None)]),
        case("列表>列表的延续", vec!["# a\n> b"], vec![(EventType::EnterOrderedList, None), (EventType::EnterListItem, None), (EventType::EnterParagraph, None), (EventType::Unparsed, Some("a")), (EventType::NewLine, None), (EventType::Unparsed, Some("b")), (EventType::ExitBlock, None), (EventType::ExitBlock, None), (EventType::ExitBlock, None)]),
        case("列表>列表的延续", vec!["# a\n>\n> b"], vec![(EventType::EnterOrderedList, None), (EventType::EnterListItem, None), (EventType::EnterParagraph, None), (EventType::Unparsed, Some("a")), (EventType::ExitBlock, None), (EventType::EnterParagraph, None), (EventType::Unparsed, Some("b")), (EventType::ExitBlock, None), (EventType::ExitBlock, None), (EventType::ExitBlock, None)]),
        case("列表>列表的延续", vec!["# # 1.1\n> # 1.2"], vec![(EventType::EnterOrderedList, None), (EventType::EnterListItem, None), (EventType::EnterOrderedList, None), (EventType::EnterListItem, None), (EventType::EnterParagraph, None), (EventType::Unparsed, Some("1.1")), (EventType::ExitBlock, None), (EventType::ExitBlock, None), (EventType::EnterListItem, None), (EventType::EnterParagraph, None), (EventType::Unparsed, Some("1.2")), (EventType::ExitBlock, None), (EventType::ExitBlock, None), (EventType::ExitBlock, None), (EventType::ExitBlock, None), (EventType::ExitBlock, None)]),
        case("列表>列表的延续", vec!["# # a\n> > b"], vec![(EventType::EnterOrderedList, None), (EventType::EnterListItem, None), (EventType::EnterOrderedList, None), (EventType::EnterListItem, None), (EventType::EnterParagraph, None), (EventType::Unparsed, Some("a")), (EventType::NewLine, None), (EventType::Unparsed, Some("b")), (EventType::ExitBlock, None), (EventType::ExitBlock, None), (EventType::ExitBlock, None), (EventType::ExitBlock, None), (EventType::ExitBlock, None)]),
        case("列表>列表中的先前测试过的块级元素", vec!["== a ==\n# 1"], vec![(EventType::EnterHeading2, None), (EventType::Unparsed, Some("a")), (EventType::ExitBlock, None), (EventType::EnterOrderedList, None), (EventType::EnterListItem, None), (EventType::EnterParagraph, None), (EventType::Unparsed, Some("1")), (EventType::ExitBlock, None), (EventType::ExitBlock, None), (EventType::ExitBlock, None)]),
        case("列表>列表中的先前测试过的块级元素", vec!["# == a =="], vec![(EventType::EnterOrderedList, None), (EventType::EnterListItem, None), (EventType::EnterHeading2, None), (EventType::Unparsed, Some("a")), (EventType::ExitBlock, None), (EventType::ExitBlock, None), (EventType::ExitBlock, None)]),
        case("列表>列表中的先前测试过的块级元素", vec!["# == a ==\n> b"], vec![(EventType::EnterOrderedList, None), (EventType::EnterListItem, None), (EventType::EnterHeading2, None), (EventType::Unparsed, Some("a")), (EventType::ExitBlock, None), (EventType::EnterParagraph, None), (EventType::Unparsed, Some("b")), (EventType::ExitBlock, None), (EventType::ExitBlock, None), (EventType::ExitBlock, None)]),
        case("列表>列表中的先前测试过的块级元素", vec!["# == a ==\n# b"], vec![(EventType::EnterOrderedList, None), (EventType::EnterListItem, None), (EventType::EnterHeading2, None), (EventType::Unparsed, Some("a")), (EventType::ExitBlock, None), (EventType::ExitBlock, None), (EventType::EnterListItem, None), (EventType::EnterParagraph, None), (EventType::Unparsed, Some("b")), (EventType::ExitBlock, None), (EventType::ExitBlock, None), (EventType::ExitBlock, None)]),
        case("列表>列表中的先前测试过的块级元素", vec!["> foo\n# 1"], vec![(EventType::EnterBlockQuote, None), (EventType::EnterParagraph, None), (EventType::Unparsed, Some("foo")), (EventType::ExitBlock, None), (EventType::ExitBlock, None), (EventType::EnterOrderedList, None), (EventType::EnterListItem, None), (EventType::EnterParagraph, None), (EventType::Unparsed, Some("1")), (EventType::ExitBlock, None), (EventType::ExitBlock, None), (EventType::ExitBlock, None)]),
        case("列表>列表中的先前测试过的块级元素", vec!["# > foo\n# # 1.1\n> # 1.2"], vec![(EventType::EnterOrderedList, None), (EventType::EnterListItem, None), (EventType::EnterBlockQuote, None), (EventType::EnterParagraph, None), (EventType::Unparsed, Some("foo")), (EventType::ExitBlock, None), (EventType::ExitBlock, None), (EventType::ExitBlock, None), (EventType::EnterListItem, None), (EventType::EnterOrderedList, None), (EventType::EnterListItem, None), (EventType::EnterParagraph, None), (EventType::Unparsed, Some("1.1")), (EventType::ExitBlock, None), (EventType::ExitBlock, None), (EventType::EnterListItem, None), (EventType::EnterParagraph, None), (EventType::Unparsed, Some("1.2")), (EventType::ExitBlock, None), (EventType::ExitBlock, None), (EventType::ExitBlock, None), (EventType::ExitBlock, None), (EventType::ExitBlock, None)]),
        case("列表>列表中的先前测试过的块级元素", vec!["# # 1.1\n>\n> > foo"], vec![(EventType::EnterOrderedList, None), (EventType::EnterListItem, None), (EventType::EnterOrderedList, None), (EventType::EnterListItem, None), (EventType::EnterParagraph, None), (EventType::Unparsed, Some("1.1")), (EventType::ExitBlock, None), (EventType::ExitBlock, None), (EventType::ExitBlock, None), (EventType::EnterBlockQuote, None), (EventType::EnterParagraph, None), (EventType::Unparsed, Some("foo")), (EventType::ExitBlock, None), (EventType::ExitBlock, None), (EventType::ExitBlock, None), (EventType::ExitBlock, None)]),
        case("描述列表", vec!["; term"], vec![(EventType::EnterDescriptionList, None), (EventType::EnterDescriptionTerm, None), (EventType::EnterParagraph, None), (EventType::Unparsed, Some("term")), (EventType::ExitBlock, None), (EventType::ExitBlock, None), (EventType::ExitBlock, None)]),
        case("描述列表", vec![": details"], vec![(EventType::EnterDescriptionList, None), (EventType::EnterDescriptionDetails, None), (EventType::EnterParagraph, None), (EventType::Unparsed, Some("details")), (EventType::ExitBlock, None), (EventType::ExitBlock, None), (EventType::ExitBlock, None)]),
        case("描述列表", vec!["; term\n: details"], vec![(EventType::EnterDescriptionList, None), (EventType::EnterDescriptionTerm, None), (EventType::EnterParagraph, None), (EventType::Unparsed, Some("term")), (EventType::ExitBlock, None), (EventType::ExitBlock, None), (EventType::EnterDescriptionDetails, None), (EventType::EnterParagraph, None), (EventType::Unparsed, Some("details")), (EventType::ExitBlock, None), (EventType::ExitBlock, None), (EventType::ExitBlock, None)]),
        case("描述列表", vec!["; term 1\n: details 1\n; term 2\n: details 2.1\n: details 2.2"], vec![(EventType::EnterDescriptionList, None), (EventType::EnterDescriptionTerm, None), (EventType::EnterParagraph, None), (EventType::Unparsed, Some("term 1")), (EventType::ExitBlock, None), (EventType::ExitBlock, None), (EventType::EnterDescriptionDetails, None), (EventType::EnterParagraph, None), (EventType::Unparsed, Some("details 1")), (EventType::ExitBlock, None), (EventType::ExitBlock, None), (EventType::EnterDescriptionTerm, None), (EventType::EnterParagraph, None), (EventType::Unparsed, Some("term 2")), (EventType::ExitBlock, None), (EventType::ExitBlock, None), (EventType::EnterDescriptionDetails, None), (EventType::EnterParagraph, None), (EventType::Unparsed, Some("details 2.1")), (EventType::ExitBlock, None), (EventType::ExitBlock, None), (EventType::EnterDescriptionDetails, None), (EventType::EnterParagraph, None), (EventType::Unparsed, Some("details 2.2")), (EventType::ExitBlock, None), (EventType::ExitBlock, None), (EventType::ExitBlock, None)]),
        case("描述列表", vec!["; ; term 1\n> : details 1\n: ; term 2"], vec![(EventType::EnterDescriptionList, None), (EventType::EnterDescriptionTerm, None), (EventType::EnterDescriptionList, None), (EventType::EnterDescriptionTerm, None), (EventType::EnterParagraph, None), (EventType::Unparsed, Some("term 1")), (EventType::ExitBlock, None), (EventType::ExitBlock, None), (EventType::EnterDescriptionDetails, None), (EventType::EnterParagraph, None), (EventType::Unparsed, Some("details 1")), (EventType::ExitBlock, None), (EventType::ExitBlock, None), (EventType::ExitBlock, None), (EventType::ExitBlock, None), (EventType::EnterDescriptionDetails, None), (EventType::EnterDescriptionList, None), (EventType::EnterDescriptionTerm, None), (EventType::EnterParagraph, None), (EventType::Unparsed, Some("term 2")), (EventType::ExitBlock, None), (EventType::ExitBlock, None), (EventType::ExitBlock, None), (EventType::ExitBlock, None), (EventType::ExitBlock, None)]),
        case("描述列表", vec!["; # a\n> > b\n: > foo"], vec![(EventType::EnterDescriptionList, None), (EventType::EnterDescriptionTerm, None), (EventType::EnterOrderedList, None), (EventType::EnterListItem, None), (EventType::EnterParagraph, None), (EventType::Unparsed, Some("a")), (EventType::NewLine, None), (EventType::Unparsed, Some("b")), (EventType::ExitBlock, None), (EventType::ExitBlock, None), (EventType::ExitBlock, None), (EventType::ExitBlock, None), (EventType::EnterDescriptionDetails, None), (EventType::EnterBlockQuote, None), (EventType::EnterParagraph, None), (EventType::Unparsed, Some("foo")), (EventType::ExitBlock, None), (EventType::ExitBlock, None), (EventType::ExitBlock, None), (EventType::ExitBlock, None)]),
        case("代码块", vec!["```\ncode\n```", "```\ncode\n````", "````\ncode\n````"], vec![(EventType::EnterCodeBlock, None), (EventType::IndicateCodeBlockCode, None), (EventType::Text, Some("code")), (EventType::NewLine, None), (EventType::ExitBlock, None)]),
        case("代码块", vec!["``\ncode\n```"], vec![(EventType::EnterParagraph, None), (EventType::Unparsed, Some("``")), (EventType::NewLine, None), (EventType::Unparsed, Some("code")), (EventType::NewLine, None), (EventType::Unparsed, Some("```")), (EventType::ExitBlock, None)]),
        case("代码块", vec!["```\n␠␠code␠␠\n```", "```\n␠␠code␠␠\n````", "````\n␠␠code␠␠\n````"], vec![(EventType::EnterCodeBlock, None), (EventType::IndicateCodeBlockCode, None), (EventType::Text, Some("  code  ")), (EventType::NewLine, None), (EventType::ExitBlock, None)]),
        case("代码块", vec!["```\n```", "```\n````", "````\n````"], vec![(EventType::EnterCodeBlock, None), (EventType::IndicateCodeBlockCode, None), (EventType::ExitBlock, None)]),
        case("代码块", vec!["```\n\n```"], vec![(EventType::EnterCodeBlock, None), (EventType::IndicateCodeBlockCode, None), (EventType::NewLine, None), (EventType::ExitBlock, None)]),
        case("代码块", vec!["````\n```\n````"], vec![(EventType::EnterCodeBlock, None), (EventType::IndicateCodeBlockCode, None), (EventType::Text, Some("```")), (EventType::NewLine, None), (EventType::ExitBlock, None)]),
        case("代码块", vec!["```info\ncode\n```"], vec![(EventType::EnterCodeBlock, None), (EventType::Text, Some("info")), (EventType::IndicateCodeBlockCode, None), (EventType::Text, Some("code")), (EventType::NewLine, None), (EventType::ExitBlock, None)]),
        case("代码块", vec!["```\ncode\n\n```"], vec![(EventType::EnterCodeBlock, None), (EventType::IndicateCodeBlockCode, None), (EventType::Text, Some("code")), (EventType::NewLine, None), (EventType::NewLine, None), (EventType::ExitBlock, None)]),
        case("代码块", vec!["```\ncode\n\n\n```"], vec![(EventType::EnterCodeBlock, None), (EventType::IndicateCodeBlockCode, None), (EventType::Text, Some("code")), (EventType::NewLine, None), (EventType::NewLine, None), (EventType::NewLine, None), (EventType::ExitBlock, None)]),
        case("代码块", vec!["```\ncode\nline 2\n```"], vec![(EventType::EnterCodeBlock, None), (EventType::IndicateCodeBlockCode, None), (EventType::Text, Some("code")), (EventType::NewLine, None), (EventType::Text, Some("line 2")), (EventType::NewLine, None), (EventType::ExitBlock, None)]),
        case("代码块", vec!["```\ncode\n\nline 3\n```"], vec![(EventType::EnterCodeBlock, None), (EventType::IndicateCodeBlockCode, None), (EventType::Text, Some("code")), (EventType::NewLine, None), (EventType::NewLine, None), (EventType::Text, Some("line 3")), (EventType::NewLine, None), (EventType::ExitBlock, None)]),
        case("代码块", vec!["```\ncode\n␠␠␠␠\nline 3\n```"], vec![(EventType::EnterCodeBlock, None), (EventType::IndicateCodeBlockCode, None), (EventType::Text, Some("code")), (EventType::NewLine, None), (EventType::Text, Some("    ")), (EventType::NewLine, None), (EventType::Text, Some("line 3")), (EventType::NewLine, None), (EventType::ExitBlock, None)]),
        case("代码块>代码块与全局阶段语法的互动", vec!["```\n<` ``` `>\n```"], vec![(EventType::EnterCodeBlock, None), (EventType::IndicateCodeBlockCode, None), (EventType::VerbatimEscaping, Some("```")), (EventType::NewLine, None), (EventType::ExitBlock, None)]),
        case("代码块>代码块与全局阶段语法的互动", vec!["```info<`\ninfo line 2`>\n```"], vec![(EventType::EnterCodeBlock, None), (EventType::Text, Some("info")), (EventType::VerbatimEscaping, Some("\ninfo line 2")), (EventType::IndicateCodeBlockCode, None), (EventType::ExitBlock, None)]),
        case("代码块>代码块与全局阶段语法的互动", vec!["```\n<` ``` `>\n```"], vec![(EventType::EnterCodeBlock, None), (EventType::IndicateCodeBlockCode, None), (EventType::VerbatimEscaping, Some("```")), (EventType::NewLine, None), (EventType::ExitBlock, None)]),
        case("代码块>代码块与全局阶段语法的互动", vec!["```info<`\ninfo line 2`>\n```"], vec![(EventType::EnterCodeBlock, None), (EventType::Text, Some("info")), (EventType::VerbatimEscaping, Some("\ninfo line 2")), (EventType::IndicateCodeBlockCode, None), (EventType::ExitBlock, None)]),
        case("代码块>代码块于 list-like 中", vec!["> ```info\n> code\n> ```"], vec![(EventType::EnterBlockQuote, None), (EventType::EnterCodeBlock, None), (EventType::Text, Some("info")), (EventType::IndicateCodeBlockCode, None), (EventType::Text, Some("code")), (EventType::NewLine, None), (EventType::ExitBlock, None), (EventType::ExitBlock, None)]),
        case("代码块>代码块于 list-like 中", vec!["> ```info\n> code"], vec![(EventType::EnterBlockQuote, None), (EventType::EnterCodeBlock, None), (EventType::Text, Some("info")), (EventType::IndicateCodeBlockCode, None), (EventType::Text, Some("code")), (EventType::ExitBlock, None), (EventType::ExitBlock, None)]),
        case("代码块>代码块于 list-like 中", vec!["> ```info\n>  code\n> ```"], vec![(EventType::EnterBlockQuote, None), (EventType::EnterCodeBlock, None), (EventType::Text, Some("info")), (EventType::IndicateCodeBlockCode, None), (EventType::Text, Some(" code")), (EventType::NewLine, None), (EventType::ExitBlock, None), (EventType::ExitBlock, None)]),
        case("代码块>代码块于 list-like 中", vec!["> ```info\n>  code\n```"], vec![(EventType::EnterBlockQuote, None), (EventType::EnterCodeBlock, None), (EventType::Text, Some("info")), (EventType::IndicateCodeBlockCode, None), (EventType::Text, Some(" code")), (EventType::ExitBlock, None), (EventType::ExitBlock, None), (EventType::EnterCodeBlock, None), (EventType::IndicateCodeBlockCode, None), (EventType::ExitBlock, None)]),
    ]
}

#[test]
fn tests_it_works() {
    let mut failed = vec![];
    for case in cases() {
        for input in &case.input_variants {
            let input = input.replace('␠', " ");
            for variant in [
                input.clone(),
                format!("\n{}", input),
                format!("{}\n", input),
            ] {
                let expected = Ok(expected_events(&case.expected));
                let actual = parse_with_stack::<VecStack<StackEntry>>(&variant);
                if actual != expected {
                    failed.push(format!(
                        "[{}] input: {:?}\n  expected: {:?}\n  actual:   {:?}",
                        case.group, variant, expected, actual
                    ));
                }
            }
        }
    }
    assert!(failed.is_empty(), "{} cases failed!\n{}", failed.len(), failed.join("\n"));
}

#[test]
fn tests_it_works_with_array_stack() {
    assert_parse_ok_and_output_matches_with_stack::<ArrayStack<StackEntry, 2>>("", &[]);
    assert_parse_ok_and_output_matches_with_stack::<ArrayStack<StackEntry, 2>>(
        ">",
        &[
            (EventType::EnterBlockQuote, None),
            (EventType::ExitBlock, None),
        ],
    );
    assert_parse_ok_and_output_matches_with_stack::<ArrayStack<StackEntry, 2>>(
        "> >",
        &[
            (EventType::EnterBlockQuote, None),
            (EventType::EnterBlockQuote, None),
            (EventType::ExitBlock, None),
            (EventType::ExitBlock, None),
        ],
    );
    assert_parse_ok_and_output_matches_with_stack::<ArrayStack<StackEntry, 2>>(
        "> > foo",
        &[
            (EventType::EnterBlockQuote, None),
            (EventType::EnterBlockQuote, None),
            (EventType::EnterParagraph, None),
            (EventType::Unparsed, Some("foo")),
            (EventType::ExitBlock, None),
            (EventType::ExitBlock, None),
            (EventType::ExitBlock, None),
        ],
    );
    assert_parse_error_with_stack::<ArrayStack<StackEntry, 2>>("> > >", Error::OutOfStackSpace)
}

fn entered_id(ev: &BlockEvent) -> Option<usize> {
    match ev {
        BlockEvent::EnterParagraph(b)
        | BlockEvent::EnterHeading1(b)
        | BlockEvent::EnterHeading2(b)
        | BlockEvent::EnterHeading3(b)
        | BlockEvent::EnterHeading4(b)
        | BlockEvent::EnterHeading5(b)
        | BlockEvent::EnterHeading6(b)
        | BlockEvent::EnterBlockQuote(b)
        | BlockEvent::EnterOrderedList(b)
        | BlockEvent::EnterUnorderedList(b)
        | BlockEvent::EnterListItem(b)
        | BlockEvent::EnterDescriptionList(b)
        | BlockEvent::EnterDescriptionTerm(b)
        | BlockEvent::EnterDescriptionDetails(b)
        | BlockEvent::EnterCodeBlock(b)
        | BlockEvent::EnterTable(b) => Some(b.id.value),
        _ => None,
    }
}

#[test]
fn every_exit_closes_the_innermost_open_block() {
    let inputs = [
        "> # a\n> ## b\n>\n; t\n: d\n{|\n|-\n! h !! h\n|-\n| c || c\n|}\n```\ncode\n```\n== x ==\n---",
        "* a\n** b\n*** c\n* d\n> e\n> > f\ng",
        "{|\n|+ caption\n|| a\n|}\n# x\n#: y",
    ];
    for input in inputs {
        let mut parser: Parser<VecStack<StackEntry>> = Parser::new(input.as_bytes());
        let mut open: Vec<usize> = vec![];
        let mut last_id = 0;
        while let Some(ev) = parser.next() {
            let ev = ev.unwrap();
            if let Some(id) = entered_id(&ev) {
                assert!(id > last_id, "block ids grow in {:?}", input);
                last_id = id;
                open.push(id);
            } else if let BlockEvent::ExitBlock(exit) = &ev {
                assert_eq!(open.pop(), Some(exit.id.value), "in {:?}", input);
                assert!(exit.start_line.value <= exit.end_line.value);
            }
        }
        assert!(open.is_empty(), "all blocks are exited in {:?}", input);
    }
}

#[test]
fn every_event_range_lies_within_the_input() {
    let input = "a <`b`> c\n```\n<`x\ny`>\n```\n{|\n| d |}";
    let mut parser: Parser<VecStack<StackEntry>> = Parser::new(input.as_bytes());
    while let Some(ev) = parser.next() {
        let ev = ev.unwrap().into_event();
        if let Some(range) = ev.content_range() {
            assert!(range.start <= range.end && range.end <= input.len());
        }
    }
}

#[test]
fn texts_come_in_input_order_without_overlapping() {
    let inputs = [
        "a <`b`> c\n```\n<`x\ny`>\n```\n{|\n| d |}",
        "== <` x `> y ==\npara  <`v`>  w\nnext",
        "> q\n> r <`s`>\n* t\n** u",
        "```info <`i`>\n  code\n```",
    ];
    for input in inputs {
        let mut parser: Parser<VecStack<StackEntry>> = Parser::new(input.as_bytes());
        let mut last_end = 0;
        while let Some(ev) = parser.next() {
            let ev = ev.unwrap().into_event();
            if let Some(range) = ev.content_range() {
                assert!(last_end <= range.start, "texts in order in {:?}", input);
                last_end = range.end;
            }
        }
    }
}
