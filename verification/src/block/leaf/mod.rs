pub mod code_block;
pub mod heading;
pub mod paragraph;
pub mod thematic_break;

use vstd::prelude::*;

use crate::block::nesting::{leaf_id, leaf_line};
use crate::block::parser_inner::ParserInner;
use crate::block::stack_wrapper::{StackEntry, TopLeaf};
use crate::block::state::{pending_ids, pending_lines_ok, is_plain_exiting, State};
use crate::block::stack_wrapper::{
    spec_enter_heading_event, Meta, TopLeafCodeBlock, TopLeafCodeBlockState, TopLeafHeading,
};
use crate::block::utils::{count_continuous_character, lemma_run_len_bounded, run_len};
use crate::events::{BlockEvent, BlockWithId, ThematicBreak};
use crate::types::BlockId;
use crate::common::{BACKTICK, EQUALS, HYPHEN, SPACE};
use crate::errors::Error;
use crate::utils::stack::Stack;

verus! {

/// What a leaf block opens with: a run of at least three `-`, a run of one
/// to six `=` and a space, a run of at least three backticks, or else a
/// paragraph, whose first bytes (a run of one of these bytes, if any) are
/// known to be content. Each carries the length of its run.
pub enum LeafOpening {
    ThematicBreak(nat),
    Heading(nat),
    CodeBlock(nat),
    Paragraph(nat),
}

/// What the leaf block that begins at `c` opens with.
pub open spec fn leaf_opening(s: Seq<u8>, c: int) -> LeafOpening {
    let b = s[c];
    let n = run_len(s, b, c);
    if b == HYPHEN && n >= 3 {
        LeafOpening::ThematicBreak(n)
    } else if b == EQUALS && 1 <= n <= 6 && c + n < s.len() && s[c + n] == SPACE {
        LeafOpening::Heading(n)
    } else if b == BACKTICK && n >= 3 {
        LeafOpening::CodeBlock(n)
    } else if b == HYPHEN || b == EQUALS || b == BACKTICK {
        LeafOpening::Paragraph(n)
    } else {
        LeafOpening::Paragraph(0)
    }
}

/// Opening a leaf block went from `old` to `new`, and from the state
/// `old_state` to `new_state`, as its opening calls for: the block, with the
/// next id, entered on the current line after its opening, or the first
/// line of a paragraph.
pub open spec fn leaf_opened<TStack: Stack<StackEntry>>(
    old: &ParserInner<TStack>,
    new: &ParserInner<TStack>,
    old_state: State,
    new_state: State,
    input: Seq<u8>,
) -> bool {
    let id = BlockId { value: (old.block_id_generator.last + 1) as usize };
    let meta = Meta { id, line_start: old.pos.current_line };
    match leaf_opening(input, old.pos.cursor as int) {
        LeafOpening::ThematicBreak(n) => {
            &&& new.pos.cursor == old.pos.cursor + n
            &&& new.to_yield@ == old.to_yield@.push(
                BlockEvent::ThematicBreak(ThematicBreak { id, line: old.pos.current_line }),
            )
            &&& new.stack.top_leaf is None
            &&& new_state == old_state
        },
        LeafOpening::Heading(n) => {
            &&& new.pos.cursor == old.pos.cursor + n + 1
            &&& new.to_yield@ == old.to_yield@.push(spec_enter_heading_event(n as usize, id))
            &&& new.stack.top_leaf == Some(
                TopLeaf::Heading(TopLeafHeading { meta, level: n as usize, has_content_before: false }),
            )
            &&& new_state == old_state
        },
        LeafOpening::CodeBlock(n) => {
            &&& new.pos.cursor == old.pos.cursor + n
            &&& new.to_yield@ == old.to_yield@.push(BlockEvent::EnterCodeBlock(BlockWithId { id }))
            &&& new.stack.top_leaf == Some(
                TopLeaf::CodeBlock(
                    TopLeafCodeBlock {
                        meta,
                        backticks: n as usize,
                        indent: old.current_expecting.spaces_before,
                        state: TopLeafCodeBlockState::InInfoString,
                    },
                ),
            )
            &&& new_state == old_state
        },
        LeafOpening::Paragraph(n) => paragraph::paragraph_enter_line_step(
            old,
            new,
            old_state,
            new_state,
            input,
            n as usize,
        ),
    }
}

/// Parses the opening of a leaf block at the cursor, whose byte is
/// `first_char`, and processes it: a thematic break, a heading, a code block,
/// or else a paragraph.
pub fn parse_opening_and_process<TStack: Stack<StackEntry>>(
    input: &[u8],
    state: &mut State,
    inner: &mut ParserInner<TStack>,
    first_char: u8,
) -> (r: Result<(), Error>)
    requires
        pending_ids(*old(state)).len() == 0,
        pending_lines_ok(*old(state), old(inner).pos.current_line.value),
        old(inner).wf(input@.len()),
        old(inner).pos.cursor < input@.len(),
        input@[old(inner).pos.cursor as int] == first_char,
        old(inner).stack.top_leaf is None,
    ensures
        pending_ids(*final(state)).len() == 0,
        pending_lines_ok(*final(state), final(inner).pos.current_line.value),
        r is Ok,
        old(inner).steps_to(final(inner), input@.len(), 3),
        final(inner).pos.cursor > old(inner).pos.cursor,
        final(inner).stack.entries() == old(inner).stack.entries(),
        final(inner).block_id_generator.last <= old(inner).block_id_generator.last + 1,
        *final(state) == *old(state) || is_plain_exiting(*final(state)),
        old(inner).nests(final(inner), seq![]),
        leaf_opened(old(inner), final(inner), *old(state), *final(state), input@),
{
    let ghost s = input@;
    let len = input.len();
    let cursor = inner.cursor();
    if first_char == HYPHEN || first_char == EQUALS || first_char == BACKTICK {
        let count = 1 + count_continuous_character(input, first_char, cursor + 1);
        proof {
            lemma_run_len_bounded(s, first_char, cursor + 1);
            assert forall|i: int| cursor <= i < cursor + count implies #[trigger] s[i] == first_char by {
                if i > cursor {
                }
            }
        }
        if first_char == HYPHEN && count >= 3 {
            inner.move_cursor_forward(count);
            thematic_break::process(inner, Ghost(input@.len()))
        } else if first_char == EQUALS && 1 <= count && count <= 6 && count < len - cursor
            && input[cursor + count] == SPACE {
            inner.move_cursor_forward(count + 1);
            heading::enter(inner, count, Ghost(input@.len()))
        } else if first_char == BACKTICK && count >= 3 {
            inner.move_cursor_forward(count);
            code_block::enter(inner, count, Ghost(input@.len()))
        } else {
            paragraph::enter_if_not_blank(input, state, inner, count)
        }
    } else {
        paragraph::enter_if_not_blank(input, state, inner, 0)
    }
}

/// Parses the content of the leaf block on top on the current line.
pub fn parse_content_and_process<TStack: Stack<StackEntry>>(
    input: &[u8],
    state: &mut State,
    inner: &mut ParserInner<TStack>,
    top_leaf: TopLeaf,
) -> (r: Result<(), Error>)
    requires
        old(inner).text_queued@ + old(inner).current_expecting.spaces_before <= old(inner).pos.cursor,
        pending_ids(*old(state)).len() == 0,
        pending_lines_ok(*old(state), old(inner).pos.current_line.value),
        old(inner).wf(input@.len()),
        old(inner).pos.cursor < input@.len(),
        old(inner).stack.top_leaf is None,
        top_leaf matches TopLeaf::Heading(h) ==> 1 <= h.level <= 6,
        leaf_line(top_leaf).value <= old(inner).pos.current_line.value,
    ensures
        pending_ids(*final(state)).len() == 0,
        pending_lines_ok(*final(state), final(inner).pos.current_line.value),
        r is Ok,
        old(inner).steps_to(final(inner), input@.len(), 3),
        final(inner).pos.cursor > old(inner).pos.cursor,
        final(inner).stack.entries() == old(inner).stack.entries(),
        final(inner).block_id_generator == old(inner).block_id_generator,
        *final(state) == *old(state) || is_plain_exiting(*final(state)),
        old(inner).nests(final(inner), seq![leaf_id(top_leaf)]),
        match top_leaf {
            TopLeaf::Paragraph(p) => paragraph::paragraph_line_step(
                old(inner),
                final(inner),
                *old(state),
                *final(state),
                input@,
                p,
            ),
            TopLeaf::Heading(h) => heading::heading_line_step(
                old(inner),
                final(inner),
                *old(state),
                *final(state),
                input@,
                h,
            ),
            TopLeaf::CodeBlock(c) => code_block::parsed_code_block_line(old(inner), final(inner), input@, c)
                && *final(state) == *old(state),
        },
{
    match top_leaf {
        TopLeaf::Paragraph(top_leaf) => paragraph::parse_content_and_process(
            input,
            state,
            inner,
            top_leaf,
        ),
        TopLeaf::Heading(top_leaf) => heading::parse_content_and_process(
            input,
            state,
            inner,
            top_leaf,
        ),
        TopLeaf::CodeBlock(top_leaf) => code_block::parse_content_and_process(
            input,
            inner,
            top_leaf,
        ),
    }
}

} // verus!
