use vstd::prelude::*;

use crate::block::nesting::open_ids;
use crate::block::parser_inner::{lemma_nests_one, ParserInner};
use crate::block::stack_wrapper::StackEntry;
use crate::errors::Error;
use crate::events::{BlockEvent, ThematicBreak};
use crate::types::BlockId;
use crate::utils::stack::Stack;

verus! {

/// Yields a thematic break whose dashes have just been consumed.
pub fn process<TStack: Stack<StackEntry>>(
    inner: &mut ParserInner<TStack>,
    Ghost(len): Ghost<nat>,
) -> (r: Result<(), Error>)
    requires
        old(inner).wf(len),
        old(inner).has_ids_for(1),
    ensures
        r is Ok,
        old(inner).steps_to(final(inner), len, 1),
        final(inner).pos == old(inner).pos,
        final(inner).stack == old(inner).stack,
        final(inner).block_id_generator.last == old(inner).block_id_generator.last + 1,
        old(inner).nests(final(inner), seq![]),
        final(inner).to_yield@ == old(inner).to_yield@.push(
            BlockEvent::ThematicBreak(
                ThematicBreak {
                    id: BlockId { value: final(inner).block_id_generator.last },
                    line: old(inner).pos.current_line,
                },
            ),
        ),
{
    let id = inner.pop_block_id();
    let line = inner.current_line();
    let ghost ev = BlockEvent::ThematicBreak(ThematicBreak { id, line });
    inner.yield_event(BlockEvent::ThematicBreak(ThematicBreak { id, line }));
    proof {
        assert(open_ids(&old(inner).stack) + seq![] =~= open_ids(&old(inner).stack));
        lemma_nests_one(old(inner), inner, ev, seq![]);
    }
    Ok(())
}

} // verus!
