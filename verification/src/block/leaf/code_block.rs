use vstd::prelude::*;

use core::ops::Range;

use crate::block::line::global_phase::{lemma_ve_content_before_cursor, lemma_ve_content_within};
use crate::block::line::verbatim::{self, verbatim_parsed, AtLineBeginning, End, EndCondition, Fence};
use crate::block::nesting::{lemma_nesting_neutral, lemma_nesting_neutral_then, open_ids};
use crate::block::parser_inner::{lemma_new_events, lemma_nests_one, ParserInner};
use crate::block::stack_wrapper::{
    spec_exit_event, Meta, StackEntry, TopLeaf, TopLeafCodeBlock, TopLeafCodeBlockState,
    TopLeafCodeBlockStateInCode,
};
use crate::common::BACKTICK;
use crate::errors::Error;
use crate::events::{BlockEvent, BlockWithId};
use crate::types::{BlockId, LineNumber};
use crate::utils::stack::Stack;

verus! {

/// Enters a code block whose opening fence of `backticks` backticks has just
/// been consumed; its info string comes next.
pub fn enter<TStack: Stack<StackEntry>>(
    inner: &mut ParserInner<TStack>,
    backticks: usize,
    Ghost(len): Ghost<nat>,
) -> (r: Result<(), Error>)
    requires
        old(inner).wf(len),
        old(inner).has_ids_for(1),
        old(inner).stack.top_leaf is None,
    ensures
        r is Ok,
        old(inner).steps_to(final(inner), len, 1),
        final(inner).pos == old(inner).pos,
        final(inner).stack.entries() == old(inner).stack.entries(),
        final(inner).block_id_generator.last == old(inner).block_id_generator.last + 1,
        old(inner).nests(final(inner), seq![]),
        ({
            let id = BlockId { value: final(inner).block_id_generator.last };
            &&& final(inner).stack.top_leaf == Some(
                TopLeaf::CodeBlock(
                    TopLeafCodeBlock {
                        meta: Meta { id, line_start: old(inner).pos.current_line },
                        backticks,
                        indent: old(inner).current_expecting.spaces_before,
                        state: TopLeafCodeBlockState::InInfoString,
                    },
                ),
            )
            &&& final(inner).to_yield@ == old(inner).to_yield@.push(
                BlockEvent::EnterCodeBlock(BlockWithId { id }),
            )
        }),
{
    let id = inner.pop_block_id();
    let top_leaf = TopLeafCodeBlock {
        meta: Meta::new(id, inner.current_line()),
        backticks,
        indent: inner.current_expecting.spaces_before(),
        state: TopLeafCodeBlockState::InInfoString,
    };
    let ev = top_leaf.make_enter_event();
    inner.stack.push_top_leaf(TopLeaf::CodeBlock(top_leaf));
    inner.yield_event(ev);
    proof {
        assert(open_ids(&old(inner).stack) + seq![] =~= open_ids(&old(inner).stack));
        lemma_nests_one(old(inner), inner, ev, seq![]);
    }
    Ok(())
}

/// How a line of a code block in `t` ends: in the info string only at the
/// end of the line, in the code also at a closing fence of at least as many
/// backticks as the opening one.
pub open spec fn code_block_end_condition(t: TopLeafCodeBlock) -> EndCondition {
    match t.state {
        TopLeafCodeBlockState::InInfoString => EndCondition { on_fence: None },
        TopLeafCodeBlockState::InCode(_) => EndCondition {
            on_fence: Some(Fence { character: BACKTICK, minimum_count: t.backticks }),
        },
    }
}

/// Whether a line of a code block in `t` is parsed from its beginning, where
/// up to the indentation of the opening fence is dropped.
pub open spec fn code_block_line_beginning(t: TopLeafCodeBlock) -> Option<AtLineBeginning> {
    match t.state {
        TopLeafCodeBlockState::InCode(TopLeafCodeBlockStateInCode::Normal)
        | TopLeafCodeBlockState::InInfoString => None,
        TopLeafCodeBlockState::InCode(_) => Some(AtLineBeginning { indent: t.indent }),
    }
}

/// The text event of `content`, if it is not empty.
pub open spec fn text_events(content: Range<usize>) -> Seq<BlockEvent> {
    if content.start < content.end {
        seq![BlockEvent::Text(content)]
    } else {
        seq![]
    }
}

/// A step of a code block in `t` over a line whose content is `content` and
/// which ended as `end`, leaving the cursor on line `line`: the events, and
/// the code block after it (`None` where the closing fence exited it).
pub open spec fn code_block_step(
    t: TopLeafCodeBlock,
    content: Range<usize>,
    end: End,
    line: LineNumber,
) -> (Seq<BlockEvent>, Option<TopLeafCodeBlock>) {
    let with_state = |state: TopLeafCodeBlockState|
        TopLeafCodeBlock { meta: t.meta, backticks: t.backticks, indent: t.indent, state };
    match t.state {
        TopLeafCodeBlockState::InInfoString => match end {
            End::NewLine(_) => (
                text_events(content).push(BlockEvent::IndicateCodeBlockCode),
                Some(with_state(TopLeafCodeBlockState::InCode(TopLeafCodeBlockStateInCode::AtFirstLineBeginning))),
            ),
            End::VerbatimEscaping(v) => (text_events(content).push(BlockEvent::VerbatimEscaping(v)), Some(t)),
            _ => (text_events(content), Some(t)),
        },
        TopLeafCodeBlockState::InCode(in_code) => {
            let line_break: Seq<BlockEvent> = match in_code {
                TopLeafCodeBlockStateInCode::AtLineBeginning(nl) => if end is Eof {
                    seq![]
                } else {
                    seq![BlockEvent::NewLine(nl)]
                },
                _ => seq![],
            };
            let before = line_break + text_events(content);
            match end {
                End::Eof => (before, Some(t)),
                End::NewLine(nl) => (
                    before,
                    Some(with_state(TopLeafCodeBlockState::InCode(TopLeafCodeBlockStateInCode::AtLineBeginning(nl)))),
                ),
                End::VerbatimEscaping(v) => (
                    before.push(BlockEvent::VerbatimEscaping(v)),
                    Some(with_state(TopLeafCodeBlockState::InCode(TopLeafCodeBlockStateInCode::Normal))),
                ),
                End::Fence => (before.push(spec_exit_event(t.meta, line)), None),
                End::Nothing => (
                    before,
                    Some(with_state(TopLeafCodeBlockState::InCode(TopLeafCodeBlockStateInCode::Normal))),
                ),
            }
        },
    }
}

/// Parsing the current line of the code block `t`, with no leaf on the
/// stack, goes from `old` to `new`: the invariant is kept, the cursor moves
/// on, the events and the code block after them are those of the step over
/// what the line scanner found, and the block, if it exits, exits last.
pub open spec fn parsed_code_block_line<TStack: Stack<StackEntry>>(
    old: &ParserInner<TStack>,
    new: &ParserInner<TStack>,
    input: Seq<u8>,
    t: TopLeafCodeBlock,
) -> bool {
    &&& old.steps_to(new, input.len(), 3)
    &&& new.pos.cursor > old.pos.cursor
    &&& new.stack.entries() == old.stack.entries()
    &&& new.block_id_generator == old.block_id_generator
    &&& old.nests(new, seq![t.meta.id])
    &&& match new.stack.top_leaf {
        Some(TopLeaf::CodeBlock(c)) => {
            &&& c.meta == t.meta
            &&& c.backticks == t.backticks
            &&& c.indent == t.indent
        },
        Some(_) => false,
        None => new.to_yield@.last() == spec_exit_event(t.meta, new.pos.current_line),
    }
    &&& exists|content: Range<usize>, end: End|
        #[trigger] verbatim_parsed(
            input,
            old.pos.cursor as int,
            old.pos.current_line.value as int,
            code_block_end_condition(t),
            old.current_expecting.spaces_before as int,
            code_block_line_beginning(t),
            content,
            end,
            new.pos.cursor as int,
            new.pos.current_line.value as int,
        ) && {
            let (events, after) = code_block_step(t, content, end, new.pos.current_line);
            &&& new.to_yield@ == old.to_yield@ + events
            &&& new.stack.top_leaf == match after {
                Some(c) => Some(TopLeaf::CodeBlock(c)),
                None => None,
            }
        }
}

/// Parses the content of a code block on the current line: its info string,
/// or a line of its code, which a closing fence ends.
pub fn parse_content_and_process<TStack: Stack<StackEntry>>(
    input: &[u8],
    inner: &mut ParserInner<TStack>,
    top_leaf: TopLeafCodeBlock,
) -> (r: Result<(), Error>)
    requires
        old(inner).text_queued@ + old(inner).current_expecting.spaces_before <= old(inner).pos.cursor,
        old(inner).wf(input@.len()),
        old(inner).pos.cursor < input@.len(),
        old(inner).stack.top_leaf is None,
        top_leaf.meta.line_start.value <= old(inner).pos.current_line.value,
    ensures
        r is Ok,
        parsed_code_block_line(old(inner), final(inner), input@, top_leaf),
{
    match top_leaf.state {
        TopLeafCodeBlockState::InInfoString => parse_info_string_line(input, inner, top_leaf),
        TopLeafCodeBlockState::InCode(in_code) => parse_code_line(input, inner, top_leaf, in_code),
    }
}

/// Parses a line of the info string of a code block.
#[verifier::rlimit(40)]
fn parse_info_string_line<TStack: Stack<StackEntry>>(
    input: &[u8],
    inner: &mut ParserInner<TStack>,
    top_leaf: TopLeafCodeBlock,
) -> (r: Result<(), Error>)
    requires
        old(inner).text_queued@ + old(inner).current_expecting.spaces_before <= old(inner).pos.cursor,
        old(inner).wf(input@.len()),
        old(inner).pos.cursor < input@.len(),
        old(inner).stack.top_leaf is None,
        top_leaf.meta.line_start.value <= old(inner).pos.current_line.value,
        top_leaf.state is InInfoString,
    ensures
        r is Ok,
        parsed_code_block_line(old(inner), final(inner), input@, top_leaf),
{
    let mut top_leaf = top_leaf;
    let spaces_before = inner.current_expecting.spaces_before();
    let ghost y0 = old(inner).to_yield@;
    let ghost mut u: Seq<BlockEvent> = seq![];
    let ghost o = open_ids(&old(inner).stack).push(top_leaf.meta.id);
    assert(open_ids(&old(inner).stack) + seq![top_leaf.meta.id] =~= o);
    assert(o.drop_last() =~= open_ids(&old(inner).stack));
    assert(inner.to_yield@ =~= y0 + u);
    let ghost t0 = top_leaf;
    let (content, end) = verbatim::parse(
        input,
        &mut inner.pos,
        EndCondition { on_fence: None },
        spaces_before,
        None,
    );
    let ghost gc = content;
    let ghost ge = end;
    proof {
        if end is VerbatimEscaping {
            lemma_ve_content_within(input@, content.end + 2);
            lemma_ve_content_before_cursor(input@, content.end + 2);
        }
    }
    if content.start < content.end {
        let ghost ev = BlockEvent::Text(content);
        inner.yield_event(BlockEvent::Text(content));
        proof {
            u = u.push(ev);
            assert(inner.to_yield@ =~= y0 + u);
        }
    }
    match end {
        End::NewLine(_) => {
            top_leaf.state = TopLeafCodeBlockState::InCode(
                TopLeafCodeBlockStateInCode::AtFirstLineBeginning,
            );
            inner.yield_event(BlockEvent::IndicateCodeBlockCode);
            proof {
                u = u.push(BlockEvent::IndicateCodeBlockCode);
                assert(inner.to_yield@ =~= y0 + u);
            }
        },
        End::VerbatimEscaping(verbatim_escaping) => {
            inner.yield_event(BlockEvent::VerbatimEscaping(verbatim_escaping));
            proof {
                u = u.push(BlockEvent::VerbatimEscaping(verbatim_escaping));
                assert(inner.to_yield@ =~= y0 + u);
            }
        },
        _ => {},
    }
    inner.stack.push_top_leaf(TopLeaf::CodeBlock(top_leaf));
    proof {
        lemma_new_events(old(inner), inner, u);
        lemma_nesting_neutral(o, u);
        assert(verbatim_parsed(
            input@,
            old(inner).pos.cursor as int,
            old(inner).pos.current_line.value as int,
            code_block_end_condition(t0),
            old(inner).current_expecting.spaces_before as int,
            code_block_line_beginning(t0),
            gc,
            ge,
            inner.pos.cursor as int,
            inner.pos.current_line.value as int,
        ));
        assert(code_block_step(t0, gc, ge, inner.pos.current_line).0 =~= u);
    }
    Ok(())
}

/// Parses a line of the code of a code block.
#[verifier::rlimit(40)]
fn parse_code_line<TStack: Stack<StackEntry>>(
    input: &[u8],
    inner: &mut ParserInner<TStack>,
    top_leaf: TopLeafCodeBlock,
    in_code: TopLeafCodeBlockStateInCode,
) -> (r: Result<(), Error>)
    requires
        old(inner).text_queued@ + old(inner).current_expecting.spaces_before <= old(inner).pos.cursor,
        old(inner).wf(input@.len()),
        old(inner).pos.cursor < input@.len(),
        old(inner).stack.top_leaf is None,
        top_leaf.meta.line_start.value <= old(inner).pos.current_line.value,
        top_leaf.state == TopLeafCodeBlockState::InCode(in_code),
    ensures
        r is Ok,
        parsed_code_block_line(old(inner), final(inner), input@, top_leaf),
{
    let mut top_leaf = top_leaf;
    let spaces_before = inner.current_expecting.spaces_before();
    let ghost y0 = old(inner).to_yield@;
    let ghost mut u: Seq<BlockEvent> = seq![];
    let ghost o = open_ids(&old(inner).stack).push(top_leaf.meta.id);
    assert(open_ids(&old(inner).stack) + seq![top_leaf.meta.id] =~= o);
    assert(o.drop_last() =~= open_ids(&old(inner).stack));
    assert(inner.to_yield@ =~= y0 + u);
    let ghost t0 = top_leaf;
    let (at_line_beginning, new_line) = match in_code {
        TopLeafCodeBlockStateInCode::AtFirstLineBeginning => (
            Some(AtLineBeginning { indent: top_leaf.indent }),
            None,
        ),
        TopLeafCodeBlockStateInCode::AtLineBeginning(new_line) => (
            Some(AtLineBeginning { indent: top_leaf.indent }),
            Some(new_line),
        ),
        TopLeafCodeBlockStateInCode::Normal => (None, None),
    };
    let (content, end) = verbatim::parse(
        input,
        &mut inner.pos,
        EndCondition {
            on_fence: Some(Fence { character: BACKTICK, minimum_count: top_leaf.backticks }),
        },
        spaces_before,
        at_line_beginning,
    );
    let ghost gc = content;
    let ghost ge = end;
    proof {
        if end is VerbatimEscaping {
            lemma_ve_content_within(input@, content.end + 2);
            lemma_ve_content_before_cursor(input@, content.end + 2);
        }
    }
    match new_line {
        Some(new_line) => {
            match end {
                End::Eof => {},
                _ => {
                    inner.yield_event(BlockEvent::NewLine(new_line));
                    proof {
                        u = u.push(BlockEvent::NewLine(new_line));
                        assert(inner.to_yield@ =~= y0 + u);
                    }
                },
            }
        },
        None => {},
    }
    if content.start < content.end {
        let ghost ev = BlockEvent::Text(content);
        inner.yield_event(BlockEvent::Text(content));
        proof {
            u = u.push(ev);
            assert(inner.to_yield@ =~= y0 + u);
        }
    }
    match end {
        End::Eof => {
            inner.stack.push_top_leaf(TopLeaf::CodeBlock(top_leaf));
            proof {
                lemma_new_events(old(inner), inner, u);
                lemma_nesting_neutral(o, u);
            }
        },
        End::NewLine(new_line) => {
            top_leaf.state = TopLeafCodeBlockState::InCode(
                TopLeafCodeBlockStateInCode::AtLineBeginning(new_line),
            );
            inner.stack.push_top_leaf(TopLeaf::CodeBlock(top_leaf));
            proof {
                lemma_new_events(old(inner), inner, u);
                lemma_nesting_neutral(o, u);
            }
        },
        End::VerbatimEscaping(verbatim_escaping) => {
            top_leaf.state = TopLeafCodeBlockState::InCode(
                TopLeafCodeBlockStateInCode::Normal,
            );
            inner.stack.push_top_leaf(TopLeaf::CodeBlock(top_leaf));
            inner.yield_event(BlockEvent::VerbatimEscaping(verbatim_escaping));
            proof {
                u = u.push(BlockEvent::VerbatimEscaping(verbatim_escaping));
                assert(inner.to_yield@ =~= y0 + u);
                lemma_new_events(old(inner), inner, u);
                lemma_nesting_neutral(o, u);
            }
        },
        End::Fence => {
            let ghost exit_event = spec_exit_event(top_leaf.meta, inner.pos.current_line);
            exit_when_indicator_already_yielded(inner, top_leaf);
            proof {
                assert(inner.to_yield@ =~= y0 + u.push(exit_event));
                lemma_new_events(old(inner), inner, u.push(exit_event));
                lemma_nesting_neutral_then(o, u, exit_event);
            }
        },
        End::Nothing => {
            top_leaf.state = TopLeafCodeBlockState::InCode(
                TopLeafCodeBlockStateInCode::Normal,
            );
            inner.stack.push_top_leaf(TopLeaf::CodeBlock(top_leaf));
            proof {
                lemma_new_events(old(inner), inner, u);
                lemma_nesting_neutral(o, u);
            }
        },
    }
    proof {
        assert(verbatim_parsed(
            input@,
            old(inner).pos.cursor as int,
            old(inner).pos.current_line.value as int,
            code_block_end_condition(t0),
            old(inner).current_expecting.spaces_before as int,
            code_block_line_beginning(t0),
            gc,
            ge,
            inner.pos.cursor as int,
            inner.pos.current_line.value as int,
        ));
        assert(inner.to_yield@ =~= old(inner).to_yield@ + code_block_step(t0, gc, ge, inner.pos.current_line).0);
    }
    Ok(())
}

/// Exits a code block whose code part has been indicated already.
pub fn exit_when_indicator_already_yielded<TStack: Stack<StackEntry>>(
    inner: &mut ParserInner<TStack>,
    top_leaf: TopLeafCodeBlock,
)
    ensures
        old(inner).yields(final(inner), spec_exit_event(top_leaf.meta, old(inner).pos.current_line)),
        forall|len: nat|
            old(inner).wf(len) && top_leaf.meta.line_start.value <= old(inner).pos.current_line.value
                ==> #[trigger] final(inner).wf(len),
{
    inner.yield_event(top_leaf.make_exit_event(inner.current_line()));
}

/// Exits a code block, indicating its (empty) code part first if it is still
/// in its info string.
pub fn exit<TStack: Stack<StackEntry>>(inner: &mut ParserInner<TStack>, top_leaf: TopLeafCodeBlock)
    ensures
        final(inner).pos == old(inner).pos,
        final(inner).stack == old(inner).stack,
        final(inner).block_id_generator == old(inner).block_id_generator,
        final(inner).current_expecting == old(inner).current_expecting,
        final(inner).text_queued == old(inner).text_queued,
        final(inner).text_taken == old(inner).text_taken,
        final(inner).to_yield@ == if top_leaf.state is InInfoString {
            old(inner).to_yield@.push(BlockEvent::IndicateCodeBlockCode).push(
                spec_exit_event(top_leaf.meta, old(inner).pos.current_line),
            )
        } else {
            old(inner).to_yield@.push(spec_exit_event(top_leaf.meta, old(inner).pos.current_line))
        },
        forall|len: nat|
            old(inner).wf(len) && top_leaf.meta.line_start.value <= old(inner).pos.current_line.value
                ==> #[trigger] final(inner).wf(len),
{
    match top_leaf.state {
        TopLeafCodeBlockState::InInfoString => {
            inner.yield_event(BlockEvent::IndicateCodeBlockCode);
        },
        _ => {},
    }
    exit_when_indicator_already_yielded(inner, top_leaf);
}

} // verus!
