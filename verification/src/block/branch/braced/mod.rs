pub mod table;

use vstd::prelude::*;

use crate::block::leaf;
use crate::block::leaf::paragraph;
use crate::block::parser_inner::ParserInner;
use crate::block::leaf::leaf_opened;
use crate::block::leaf::paragraph::paragraph_enter_line_step;
use crate::block::stack_wrapper::{Meta, StackEntry, StackEntryTable};
use crate::events::{BlockEvent, BlockWithId};
use crate::types::BlockId;
use crate::block::state::{pending_ids, pending_lines_ok, is_plain_exiting, Expecting, State};
use crate::common::{LEFT_BRACE, PIPE};
use crate::errors::Error;
use crate::utils::stack::Stack;

verus! {

/// Opening a braced block, or else a leaf block, went from `old` to `new`,
/// and from the state `old_state` to `new_state`: `{|` enters a table
/// (unless the stack is full) and expects what is braced next, a lone `{`
/// begins a paragraph, and anything else opens a leaf block.
pub open spec fn braced_opened<TStack: Stack<StackEntry>>(
    old: &ParserInner<TStack>,
    new: &ParserInner<TStack>,
    old_state: State,
    new_state: State,
    input: Seq<u8>,
    first_char: u8,
    r: Result<(), Error>,
) -> bool {
    let c = old.pos.cursor as int;
    if first_char == LEFT_BRACE && c + 1 < input.len() && input[c + 1] == PIPE {
        let id = BlockId { value: (old.block_id_generator.last + 1) as usize };
        let entry = StackEntryTable { meta: Meta { id, line_start: old.pos.current_line } };
        &&& new.pos.cursor == c + 2
        &&& new_state == State::Expecting(Expecting::BracedOpening)
        &&& new.stack.top_leaf is None
        &&& match r {
            Ok(()) => {
                &&& new.stack.entries() == old.stack.entries().push(
                    StackEntry::Table(entry),
                )
                &&& new.to_yield@ == old.to_yield@.push(
                    BlockEvent::EnterTable(BlockWithId { id }),
                )
            },
            Err(_) => {
                &&& new.stack.entries() == old.stack.entries()
                &&& new.to_yield@ == old.to_yield@
            },
        }
        &&& (TStack::spec_capacity() matches Some(cap) ==> old.stack.entries().len() < cap)
            ==> r is Ok
    } else if first_char == LEFT_BRACE {
        &&& r is Ok
        &&& paragraph_enter_line_step(old, new, old_state, new_state, input, 1)
    } else {
        &&& r is Ok
        &&& leaf_opened(old, new, old_state, new_state, input)
    }
}

/// Parses the opening of a braced block (a table) at the cursor, whose byte
/// is `first_char`, and processes it; anything else is left to the leaf
/// blocks.
pub fn parse_opening_and_process<TStack: Stack<StackEntry>>(
    input: &[u8],
    state: &mut State,
    inner: &mut ParserInner<TStack>,
    first_char: u8,
) -> (r: Result<(), Error>)
    requires
        pending_ids(*old(state)).len() == 0,
        pending_lines_ok(*old(state), old(inner).pos.current_line.value),
        old(inner).wf(input@.len()),
        old(inner).pos.cursor < input@.len(),
        input@[old(inner).pos.cursor as int] == first_char,
        old(inner).stack.top_leaf is None,
    ensures
        pending_ids(*final(state)).len() == 0,
        pending_lines_ok(*final(state), final(inner).pos.current_line.value),
        old(inner).steps_to(final(inner), input@.len(), 3),
        final(inner).pos.cursor > old(inner).pos.cursor,
        final(inner).block_id_generator.last <= old(inner).block_id_generator.last + 1,
        *final(state) == *old(state) || is_plain_exiting(*final(state)) || *final(state)
            == State::Expecting(Expecting::BracedOpening),
        r matches Err(e) ==> e == Error::OutOfStackSpace && final(inner).stack.is_full(),
        old(inner).nests(final(inner), seq![]),
        braced_opened(old(inner), final(inner), *old(state), *final(state), input@, first_char, r),
{
    let len = input.len();
    let cursor = inner.cursor();
    if first_char == LEFT_BRACE {
        if cursor + 1 < len && input[cursor + 1] == PIPE {
            inner.move_cursor_forward(2);
            table::enter(state, inner, Ghost(input@.len()))
        } else {
            paragraph::enter_if_not_blank(input, state, inner, 1)
        }
    } else {
        leaf::parse_opening_and_process(input, state, inner, first_char)
    }
}

} // verus!
