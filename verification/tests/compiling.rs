use rotext::compiling::{
    ArgumentKey, BlockCall, Call, CompiledItem, Compiler, Error, Event, NewCompileOptions,
    Restrictions,
};
use rotext::events::{BlockWithId, ExitBlock, NewLine, VerbatimEscaping};
use rotext::types::{BlockId, LineNumber};

fn enter() -> Event {
    Event::EnterParagraph(BlockWithId { id: BlockId::new(1) })
}

fn exit() -> Event {
    Event::ExitBlock(ExitBlock {
        id: BlockId::new(1),
        start_line: LineNumber::new(1),
        end_line: LineNumber::new(1),
    })
}

fn new_line() -> Event {
    Event::NewLine(NewLine {
        line_after: LineNumber::new(2),
    })
}

fn verbatim(start: usize, end: usize) -> Event {
    Event::VerbatimEscaping(VerbatimEscaping {
        content: start..end,
        is_closed_forcedly: false,
        line_after: LineNumber::new(1),
    })
}

fn options(max_call_depth_in_document: usize) -> NewCompileOptions {
    NewCompileOptions {
        restrictions: Restrictions {
            max_call_depth_in_document,
        },
    }
}

#[test]
fn compile_groups_simple_events_into_one_run() {
    let input = b"foo";
    let evs = vec![enter(), Event::Text(0..3), exit()];
    let opts = options(1);
    let compiler = Compiler::new(&opts);
    assert_eq!(
        compiler.compile(input, &evs),
        Ok(vec![CompiledItem::SimpleEvents(0..3)])
    );
}

#[test]
fn compile_of_no_events_is_empty() {
    let opts = options(1);
    let compiler = Compiler::new(&opts);
    assert_eq!(compiler.compile(b"", &[]), Ok(vec![]));
}

#[test]
fn compile_stops_at_an_exit_of_the_outer_block() {
    let input = b"a";
    let evs = vec![Event::Text(0..1), exit(), Event::Text(0..1)];
    let opts = options(1);
    let compiler = Compiler::new(&opts);
    assert_eq!(
        compiler.compile(input, &evs),
        Ok(vec![CompiledItem::SimpleEvents(0..1)])
    );
}

#[test]
fn compile_collects_the_arguments_of_a_call() {
    // "{{tpl|x|v=a\nb}}" as the events of a block call.
    let input = b"tpl x v a b";
    let evs = vec![
        enter(),
        exit(),
        Event::EnterCallOnTemplate(Call::Block {
            id: BlockId::new(7),
            name: 0..3,
        }),
        Event::IndicateCallNormalArgument(None),
        enter(),
        Event::Text(4..5),
        exit(),
        Event::IndicateCallVerbatimArgument(Some(6..7)),
        Event::Text(8..9),
        new_line(),
        verbatim(10, 11),
        Event::IndicateCallNormalArgument(None),
        exit(),
        Event::IndicateTableRow,
    ];
    let opts = options(2);
    let compiler = Compiler::new(&opts);
    let expected = vec![
        CompiledItem::SimpleEvents(0..2),
        CompiledItem::BlockTransclusion(BlockCall {
            name: b"tpl",
            arguments: vec![
                (
                    ArgumentKey::Unnamed(1),
                    vec![CompiledItem::SimpleEvents(4..7)],
                ),
                (ArgumentKey::Unnamed(2), vec![]),
            ],
            verbatim_arguments: vec![(ArgumentKey::Named(b"v"), b"a\nb".to_vec())],
            block_id: BlockId::new(7),
        }),
        CompiledItem::SimpleEvents(13..14),
    ];
    assert_eq!(compiler.compile(input, &evs), Ok(expected));
}

#[test]
fn compile_of_an_extension_call() {
    let input = b"ext";
    let evs = vec![
        Event::EnterCallOnExtension(Call::Block {
            id: BlockId::new(1),
            name: 0..3,
        }),
        exit(),
    ];
    let opts = options(1);
    let compiler = Compiler::new(&opts);
    assert_eq!(
        compiler.compile(input, &evs),
        Ok(vec![CompiledItem::BlockExtension(BlockCall {
            name: b"ext",
            arguments: vec![],
            verbatim_arguments: vec![],
            block_id: BlockId::new(1),
        })])
    );
}

#[test]
fn compile_fails_when_calls_are_nested_too_deep() {
    let input = b"t";
    let evs = vec![
        Event::EnterCallOnTemplate(Call::Block {
            id: BlockId::new(1),
            name: 0..1,
        }),
        Event::IndicateCallNormalArgument(None),
        Event::Text(0..1),
        exit(),
    ];
    let opts = options(1);
    let compiler = Compiler::new(&opts);
    assert_eq!(
        compiler.compile(input, &evs),
        Err(Error::RecursionDepthExceeded)
    );
    let opts = options(0);
    let compiler = Compiler::new(&opts);
    assert_eq!(compiler.compile(input, &[]), Err(Error::RecursionDepthExceeded));
}

#[test]
fn argument_keys_as_bytes() {
    assert_eq!(ArgumentKey::Named(b"name").to_vec(), b"name".to_vec());
    assert_eq!(ArgumentKey::Unnamed(1).to_vec(), b"1".to_vec());
    assert_eq!(ArgumentKey::Unnamed(0).to_vec(), b"0".to_vec());
    assert_eq!(ArgumentKey::Unnamed(1234567890).to_vec(), b"1234567890".to_vec());
}

#[test]
fn compiling_error_names() {
    assert_eq!(Error::RecursionDepthExceeded.name(), "RecursionDepthExceeded");
}
