use vstd::prelude::*;

use core::ops::Range;

use crate::block::branch::braced::table::{make_table_related_end_condition, spec_table_related_end_state};
use crate::block::line::global_phase::{lemma_ve_content_before_cursor, lemma_ve_content_within};
use crate::block::line::normal::{
    self, normal_parsed, AtxClosing, ContentBefore, End, EndCondition, TableRelated,
};
use crate::block::nesting::{lemma_nesting_neutral_then, open_ids};
use crate::block::parser_inner::{lemma_new_events, lemma_nests_one, ParserInner};
use crate::block::stack_wrapper::{spec_enter_heading_event, spec_exit_event, Meta, StackEntry, TopLeaf, TopLeafHeading};
use crate::block::state::{pending_ids, pending_lines_ok, is_plain_exiting, State};
use crate::common::EQUALS;
use crate::errors::Error;
use crate::events::BlockEvent;
use crate::types::{BlockId, LineNumber};
use crate::utils::stack::Stack;

verus! {

/// Enters a heading of the given level, whose opening has just been consumed.
pub fn enter<TStack: Stack<StackEntry>>(
    inner: &mut ParserInner<TStack>,
    level: usize,
    Ghost(len): Ghost<nat>,
) -> (r: Result<(), Error>)
    requires
        old(inner).wf(len),
        old(inner).has_ids_for(1),
        old(inner).stack.top_leaf is None,
        1 <= level <= 6,
    ensures
        r is Ok,
        old(inner).steps_to(final(inner), len, 1),
        final(inner).pos == old(inner).pos,
        final(inner).stack.entries() == old(inner).stack.entries(),
        final(inner).block_id_generator.last == old(inner).block_id_generator.last + 1,
        old(inner).nests(final(inner), seq![]),
        ({
            let id = BlockId { value: final(inner).block_id_generator.last };
            &&& final(inner).stack.top_leaf == Some(
                TopLeaf::Heading(
                    TopLeafHeading {
                        meta: Meta { id, line_start: old(inner).pos.current_line },
                        level,
                        has_content_before: false,
                    },
                ),
            )
            &&& final(inner).to_yield@ == old(inner).to_yield@.push(
                spec_enter_heading_event(level, id),
            )
        }),
{
    let id = inner.pop_block_id();
    let top_leaf = TopLeafHeading {
        meta: Meta::new(id, inner.current_line()),
        level,
        has_content_before: false,
    };
    let ev = top_leaf.make_enter_event();
    inner.stack.push_top_leaf(TopLeaf::Heading(top_leaf));
    inner.yield_event(ev);
    proof {
        assert(open_ids(&old(inner).stack) + seq![] =~= open_ids(&old(inner).stack));
        lemma_nests_one(old(inner), inner, ev, seq![]);
    }
    Ok(())
}

/// How a line of a heading of `level` ends: also at its closing part, and,
/// inside a table (where tables are open), at table-related syntax.
pub open spec fn heading_end_condition(level: usize, tables_in_stack: int) -> EndCondition {
    EndCondition {
        on_atx_closing: Some(AtxClosing { character: EQUALS, count: level }),
        on_table_related: if tables_in_stack > 0 {
            Some(TableRelated { is_caption_applicable: false })
        } else {
            None
        },
    }
}

/// What precedes the cursor on a line of a heading: a space, where spaces
/// were consumed.
pub open spec fn heading_content_before(spaces_before: int) -> ContentBefore {
    if spaces_before > 0 {
        ContentBefore::Space
    } else {
        ContentBefore::NotSpace(0)
    }
}

/// The state after a line that ended as `end`: table-related syntax exits
/// up to the table, anything else leaves `state` as it is.
pub open spec fn state_after_line(state: State, end: End) -> State {
    match end {
        End::TableRelated(t) => spec_table_related_end_state(t),
        _ => state,
    }
}

/// The unparsed event of `content`, if it is not empty.
pub open spec fn unparsed_events(content: Range<usize>) -> Seq<BlockEvent> {
    if content.start < content.end {
        seq![BlockEvent::Unparsed(content)]
    } else {
        seq![]
    }
}

/// A step of the heading `t` over a line whose content is `content` and
/// which ended as `end`, after `spaces_before` spaces, leaving the cursor on
/// line `line`: the events, and the heading after it (`None` where it
/// exited). Right after the opening, and before a verbatim escaping, the
/// spaces consumed belong to the content.
pub open spec fn heading_step(
    t: TopLeafHeading,
    spaces_before: int,
    content: Range<usize>,
    end: End,
    line: LineNumber,
) -> (Seq<BlockEvent>, Option<TopLeafHeading>) {
    let start = if spaces_before > 0 && (!t.has_content_before || end is VerbatimEscaping) {
        content.start - spaces_before
    } else {
        content.start as int
    };
    let unparsed = unparsed_events(Range { start: start as usize, end: content.end });
    match end {
        End::VerbatimEscaping(v) => (
            unparsed.push(BlockEvent::VerbatimEscaping(v)),
            Some(TopLeafHeading { meta: t.meta, level: t.level, has_content_before: true }),
        ),
        End::Nothing => (unparsed, Some(t)),
        _ => (unparsed.push(spec_exit_event(t.meta, line)), None),
    }
}

/// Parsing the current line of the heading `t` goes from `old` to `new`,
/// and from the state `old_state` to `new_state`, as the step of the heading
/// over what the line scanner found.
pub open spec fn heading_line_step<TStack: Stack<StackEntry>>(
    old: &ParserInner<TStack>,
    new: &ParserInner<TStack>,
    old_state: State,
    new_state: State,
    input: Seq<u8>,
    t: TopLeafHeading,
) -> bool {
    exists|content: Range<usize>, end: End|
        #[trigger] normal_parsed(
            input,
            old.pos.cursor as int,
            old.pos.current_line.value as int,
            heading_end_condition(t.level, old.stack.tables_in_stack as int),
            heading_content_before(old.current_expecting.spaces_before as int),
            content,
            end,
            new.pos.cursor as int,
            new.pos.current_line.value as int,
        ) && {
            let (events, after) = heading_step(
                t,
                old.current_expecting.spaces_before as int,
                content,
                end,
                new.pos.current_line,
            );
            &&& new.to_yield@ == old.to_yield@ + events
            &&& new.stack.top_leaf == match after {
                Some(h) => Some(TopLeaf::Heading(h)),
                None => None,
            }
            &&& new_state == state_after_line(old_state, end)
        }
}

/// Parses the content of a heading on the current line, and exits the
/// heading where the line ends.
#[verifier::rlimit(40)]
pub fn parse_content_and_process<TStack: Stack<StackEntry>>(
    input: &[u8],
    state: &mut State,
    inner: &mut ParserInner<TStack>,
    top_leaf: TopLeafHeading,
) -> (r: Result<(), Error>)
    requires
        old(inner).text_queued@ + old(inner).current_expecting.spaces_before <= old(inner).pos.cursor,
        pending_ids(*old(state)).len() == 0,
        pending_lines_ok(*old(state), old(inner).pos.current_line.value),
        old(inner).wf(input@.len()),
        old(inner).pos.cursor < input@.len(),
        old(inner).stack.top_leaf is None,
        top_leaf.meta.line_start.value <= old(inner).pos.current_line.value,
        1 <= top_leaf.level <= 6,
    ensures
        pending_ids(*final(state)).len() == 0,
        pending_lines_ok(*final(state), final(inner).pos.current_line.value),
        r is Ok,
        old(inner).steps_to(final(inner), input@.len(), 2),
        final(inner).pos.cursor > old(inner).pos.cursor,
        final(inner).stack.entries() == old(inner).stack.entries(),
        final(inner).block_id_generator == old(inner).block_id_generator,
        *final(state) == *old(state) || is_plain_exiting(*final(state)),
        old(inner).nests(final(inner), seq![top_leaf.meta.id]),
        match final(inner).stack.top_leaf {
            Some(TopLeaf::Heading(h)) => h.meta == top_leaf.meta && h.level == top_leaf.level,
            Some(_) => false,
            None => final(inner).to_yield@.last() == spec_exit_event(
                top_leaf.meta,
                final(inner).pos.current_line,
            ),
        },
        heading_line_step(old(inner), final(inner), *old(state), *final(state), input@, top_leaf),
{
    let mut top_leaf = top_leaf;
    let ghost t0 = top_leaf;
    let on_table_related = make_table_related_end_condition(inner, false);
    let spaces_before = inner.current_expecting.spaces_before();
    let content_before = if spaces_before > 0 {
        ContentBefore::Space
    } else {
        ContentBefore::NotSpace(0)
    };
    let (mut content, end) = normal::parse(
        input,
        &mut inner.pos,
        EndCondition {
            on_atx_closing: Some(AtxClosing { character: EQUALS, count: top_leaf.level }),
            on_table_related,
        },
        content_before,
    );
    let ghost gc = content;
    let ghost ge = end;
    proof {
        if end is VerbatimEscaping {
            lemma_ve_content_within(input@, content.end + 2);
            lemma_ve_content_before_cursor(input@, content.end + 2);
        }
    }
    // Right after the opening, and before a verbatim escaping that follows
    // content, the spaces consumed before the cursor belong to the content.
    if spaces_before > 0 && (!top_leaf.has_content_before || end.is_verbatim_escaping()) {
        content.start = content.start - spaces_before;
    }
    let ghost y0 = old(inner).to_yield@;
    let ghost u: Seq<BlockEvent> = if content.start < content.end {
        seq![BlockEvent::Unparsed(content)]
    } else {
        seq![]
    };
    if content.start < content.end {
        inner.yield_event(BlockEvent::Unparsed(content));
    }
    assert(inner.to_yield@ =~= y0 + u);
    let ghost exit_event = spec_exit_event(top_leaf.meta, inner.pos.current_line);
    let ghost o = open_ids(&old(inner).stack).push(top_leaf.meta.id);
    assert(open_ids(&old(inner).stack) + seq![top_leaf.meta.id] =~= o);
    assert(o.drop_last() =~= open_ids(&old(inner).stack));
    proof {
        lemma_nesting_neutral_then(o, u, exit_event);
    }
    match end {
        End::Eof | End::NewLine(_) => {
            exit(inner, top_leaf);
            proof {
                assert(inner.to_yield@ =~= y0 + u.push(exit_event));
                lemma_new_events(old(inner), inner, u.push(exit_event));
            }
        },
        End::VerbatimEscaping(verbatim_escaping) => {
            top_leaf.has_content_before = true;
            inner.stack.push_top_leaf(TopLeaf::Heading(top_leaf));
            inner.yield_event(BlockEvent::VerbatimEscaping(verbatim_escaping));
            proof {
                lemma_nesting_neutral_then(o, u, BlockEvent::VerbatimEscaping(verbatim_escaping));
                assert(inner.to_yield@ =~= y0 + u.push(BlockEvent::VerbatimEscaping(verbatim_escaping)));
                lemma_new_events(old(inner), inner, u.push(BlockEvent::VerbatimEscaping(verbatim_escaping)));
            }
        },
        End::TableRelated(table_related_end) => {
            exit(inner, top_leaf);
            table_related_end.process(state);
            proof {
                assert(inner.to_yield@ =~= y0 + u.push(exit_event));
                lemma_new_events(old(inner), inner, u.push(exit_event));
            }
        },
        End::Nothing => {
            inner.stack.push_top_leaf(TopLeaf::Heading(top_leaf));
            proof {
                lemma_new_events(old(inner), inner, u);
            }
        },
    }
    proof {
        assert(normal_parsed(
            input@,
            old(inner).pos.cursor as int,
            old(inner).pos.current_line.value as int,
            heading_end_condition(t0.level, old(inner).stack.tables_in_stack as int),
            heading_content_before(old(inner).current_expecting.spaces_before as int),
            gc,
            ge,
            inner.pos.cursor as int,
            inner.pos.current_line.value as int,
        ));
        assert(inner.to_yield@ =~= old(inner).to_yield@ + heading_step(
            t0,
            old(inner).current_expecting.spaces_before as int,
            gc,
            ge,
            inner.pos.current_line,
        ).0);
    }
    Ok(())
}

/// Exits a heading.
pub fn exit<TStack: Stack<StackEntry>>(inner: &mut ParserInner<TStack>, top_leaf: TopLeafHeading)
    ensures
        old(inner).yields(final(inner), spec_exit_event(top_leaf.meta, old(inner).pos.current_line)),
        forall|len: nat|
            old(inner).wf(len) && top_leaf.meta.line_start.value <= old(inner).pos.current_line.value
                ==> #[trigger] final(inner).wf(len),
{
    inner.yield_event(top_leaf.make_exit_event(inner.current_line()));
}

} // verus!
