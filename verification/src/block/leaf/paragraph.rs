use vstd::prelude::*;

use core::ops::Range;

use crate::block::branch::braced::table::{make_table_related_end_condition, spec_table_related_end_state};
use crate::block::line::global_phase::{lemma_ve_content_before_cursor, lemma_ve_content_within};
use crate::block::leaf::heading::{heading_content_before, state_after_line, unparsed_events};
use crate::block::line::normal::{self, normal_parsed, ContentBefore, End, EndCondition, TableRelated};
use crate::block::nesting::{
    lemma_nesting_enter_then_neutral, lemma_nesting_neutral, lemma_nesting_neutral_then, open_ids,
};
use crate::block::parser_inner::{event_within, lemma_new_events, ParserInner};
use crate::block::stack_wrapper::{spec_exit_event, Meta, StackEntry, TopLeaf, TopLeafParagraph};
use crate::block::state::{pending_ids, pending_lines_ok, is_plain_exiting, State};
use crate::common::{CR, LF, SPACE};
use crate::errors::Error;
use crate::events::{BlockEvent, BlockWithId, NewLine};
use crate::types::{BlockId, LineNumber};
use crate::utils::stack::Stack;

verus! {

/// How a line of a paragraph ends: inside a table (where tables are open),
/// also at table-related syntax.
pub open spec fn paragraph_end_condition(tables_in_stack: int, is_caption_applicable: bool) -> EndCondition {
    EndCondition {
        on_atx_closing: None,
        on_table_related: if tables_in_stack > 0 {
            Some(TableRelated { is_caption_applicable })
        } else {
            None
        },
    }
}

/// The verbatim escaping event that ended a line, if it did.
pub open spec fn escaping_events(end: End) -> Seq<BlockEvent> {
    match end {
        End::VerbatimEscaping(v) => seq![BlockEvent::VerbatimEscaping(v)],
        _ => seq![],
    }
}

/// The line break that ended a line, if it did.
pub open spec fn line_break_of(end: End) -> Option<NewLine> {
    match end {
        End::NewLine(nl) => Some(nl),
        _ => None,
    }
}

/// The first line of a paragraph, whose content is `content` and which
/// ended as `end`: unless the line is blank, a paragraph with id `id` is
/// entered on line `line`. The events, and the paragraph after them.
pub open spec fn paragraph_enter_step(
    id: BlockId,
    line: LineNumber,
    content: Range<usize>,
    end: End,
) -> (Seq<BlockEvent>, Option<TopLeafParagraph>) {
    if content.start < content.end || end is VerbatimEscaping {
        (
            seq![BlockEvent::EnterParagraph(BlockWithId { id })] + unparsed_events(content)
                + escaping_events(end),
            Some(TopLeafParagraph { meta: Meta { id, line_start: line }, new_line: line_break_of(end) }),
        )
    } else {
        (seq![], None)
    }
}

/// A later line of the paragraph `t`, whose content is `content` and which
/// ended as `end`, after `spaces_before` spaces, leaving the cursor on line
/// `line`: a blank line after a line break exits the paragraph; otherwise
/// the line break before goes on into the paragraph, and in the middle of
/// a line the spaces consumed belong to the content. The events, and the
/// paragraph after them.
pub open spec fn paragraph_step(
    t: TopLeafParagraph,
    spaces_before: int,
    content: Range<usize>,
    end: End,
    line: LineNumber,
) -> (Seq<BlockEvent>, Option<TopLeafParagraph>) {
    if content.start < content.end || t.new_line is None || end is VerbatimEscaping {
        let (before, start) = match t.new_line {
            Some(nl) => (seq![BlockEvent::NewLine(nl)], content.start as int),
            None => (
                seq![],
                if spaces_before > 0 {
                    content.start - spaces_before
                } else {
                    content.start as int
                },
            ),
        };
        (
            before + unparsed_events(Range { start: start as usize, end: content.end })
                + escaping_events(end),
            Some(TopLeafParagraph { meta: t.meta, new_line: line_break_of(end) }),
        )
    } else {
        (seq![spec_exit_event(t.meta, line)], None)
    }
}

/// Parsing the first line of a paragraph, whose first `content_before`
/// bytes are known to be content, goes from `old` to `new`, and from the
/// state `old_state` to `new_state`, as the step over what the line scanner
/// found: a blank line queues nothing and takes no block id.
pub open spec fn paragraph_enter_line_step<TStack: Stack<StackEntry>>(
    old: &ParserInner<TStack>,
    new: &ParserInner<TStack>,
    old_state: State,
    new_state: State,
    input: Seq<u8>,
    content_before: usize,
) -> bool {
    exists|content: Range<usize>, end: End|
        #[trigger] normal_parsed(
            input,
            old.pos.cursor as int,
            old.pos.current_line.value as int,
            paragraph_end_condition(
                old.stack.tables_in_stack as int,
                old.has_just_entered_table,
            ),
            ContentBefore::NotSpace(content_before),
            content,
            end,
            new.pos.cursor as int,
            new.pos.current_line.value as int,
        ) && {
            let (events, after) = paragraph_enter_step(
                BlockId { value: (old.block_id_generator.last + 1) as usize },
                old.pos.current_line,
                content,
                end,
            );
            &&& new.to_yield@ == old.to_yield@ + events
            &&& new.stack.top_leaf == match after {
                Some(p) => Some(TopLeaf::Paragraph(p)),
                None => None,
            }
            &&& new.block_id_generator.last == old.block_id_generator.last + if after is Some {
                1int
            } else {
                0int
            }
            &&& new_state == state_after_line(old_state, end)
        }
}

/// Parsing a later line of the paragraph `t` goes from `old` to `new`, and
/// from the state `old_state` to `new_state`, as the step of the paragraph
/// over what the line scanner found.
pub open spec fn paragraph_line_step<TStack: Stack<StackEntry>>(
    old: &ParserInner<TStack>,
    new: &ParserInner<TStack>,
    old_state: State,
    new_state: State,
    input: Seq<u8>,
    t: TopLeafParagraph,
) -> bool {
    exists|content: Range<usize>, end: End|
        #[trigger] normal_parsed(
            input,
            old.pos.cursor as int,
            old.pos.current_line.value as int,
            paragraph_end_condition(old.stack.tables_in_stack as int, false),
            heading_content_before(old.current_expecting.spaces_before as int),
            content,
            end,
            new.pos.cursor as int,
            new.pos.current_line.value as int,
        ) && {
            let (events, after) = paragraph_step(
                t,
                old.current_expecting.spaces_before as int,
                content,
                end,
                new.pos.current_line,
            );
            &&& new.to_yield@ == old.to_yield@ + events
            &&& new.stack.top_leaf == match after {
                Some(p) => Some(TopLeaf::Paragraph(p)),
                None => None,
            }
            &&& new_state == state_after_line(old_state, end)
        }
}

/// Enters a paragraph, unless the rest of the line is blank.
///
/// The `content_before` bytes at the cursor are already known to belong to
/// the paragraph; none of them is a space or a line break.
pub fn enter_if_not_blank<TStack: Stack<StackEntry>>(
    input: &[u8],
    state: &mut State,
    inner: &mut ParserInner<TStack>,
    content_before: usize,
) -> (r: Result<(), Error>)
    requires
        pending_ids(*old(state)).len() == 0,
        pending_lines_ok(*old(state), old(inner).pos.current_line.value),
        old(inner).wf(input@.len()),
        old(inner).pos.cursor < input@.len(),
        old(inner).pos.cursor + content_before <= input@.len(),
        forall|i: int|
            old(inner).pos.cursor <= i < old(inner).pos.cursor + content_before ==> {
                let b = #[trigger] input@[i];
                b != CR && b != LF && b != SPACE
            },
        old(inner).stack.top_leaf is None,
    ensures
        pending_ids(*final(state)).len() == 0,
        pending_lines_ok(*final(state), final(inner).pos.current_line.value),
        r is Ok,
        old(inner).steps_to(final(inner), input@.len(), 3),
        final(inner).pos.cursor > old(inner).pos.cursor,
        final(inner).stack.entries() == old(inner).stack.entries(),
        final(inner).block_id_generator.last <= old(inner).block_id_generator.last + 1,
        *final(state) == *old(state) || is_plain_exiting(*final(state)),
        final(inner).stack.top_leaf is None || final(inner).stack.top_leaf matches Some(TopLeaf::Paragraph(_)),
        old(inner).nests(final(inner), seq![]),
        paragraph_enter_line_step(old(inner), final(inner), *old(state), *final(state), input@, content_before),
{
    let line_start = inner.current_line();
    let has_just_entered_table = inner.has_just_entered_table();
    let on_table_related = make_table_related_end_condition(inner, has_just_entered_table);
    let (content, mut end) = normal::parse(
        input,
        &mut inner.pos,
        EndCondition { on_atx_closing: None, on_table_related },
        ContentBefore::NotSpace(content_before),
    );
    let ghost gc = content;
    let ghost ge = end;
    proof {
        if end is VerbatimEscaping {
            lemma_ve_content_within(input@, content.end + 2);
            lemma_ve_content_before_cursor(input@, content.end + 2);
        }
    }
    let ghost y0 = old(inner).to_yield@;
    let ghost o = open_ids(&old(inner).stack);
    let ghost mut entered: Option<(BlockEvent, BlockId)> = None;
    let ghost mut u: Seq<BlockEvent> = seq![];
    if content.start < content.end || end.is_verbatim_escaping() {
        let id = inner.pop_block_id();
        let top_leaf = TopLeafParagraph { meta: Meta::new(id, line_start), new_line: end.try_take_new_line() };
        let ev = top_leaf.make_enter_event();
        inner.stack.push_top_leaf(TopLeaf::Paragraph(top_leaf));
        inner.yield_event(ev);
        proof {
            entered = Some((ev, id));
        }
        if content.start < content.end {
            let ghost unparsed = BlockEvent::Unparsed(content);
            inner.yield_event(BlockEvent::Unparsed(content));
            proof {
                u = u.push(unparsed);
            }
        }
    }
    let ghost end_g = end;
    process_normal_end(end, state, inner);
    proof {
        if let End::VerbatimEscaping(v) = end_g {
            u = u.push(BlockEvent::VerbatimEscaping(v));
        }
        match entered {
            Some((ev, id)) => {
                assert(inner.to_yield@ =~= y0 + (seq![ev] + u));
                lemma_new_events(old(inner), inner, seq![ev] + u);
                lemma_nesting_enter_then_neutral(o, ev, id, u);
                assert(o + seq![] =~= o);
            },
            None => {
                assert(inner.to_yield@ =~= y0 + u);
                lemma_new_events(old(inner), inner, u);
                lemma_nesting_neutral(o, u);
                assert(o + seq![] =~= o);
            },
        }
        assert(normal_parsed(
            input@,
            old(inner).pos.cursor as int,
            old(inner).pos.current_line.value as int,
            paragraph_end_condition(old(inner).stack.tables_in_stack as int, old(inner).has_just_entered_table),
            ContentBefore::NotSpace(content_before),
            gc,
            ge,
            inner.pos.cursor as int,
            inner.pos.current_line.value as int,
        ));
        assert(inner.to_yield@ =~= old(inner).to_yield@ + paragraph_enter_step(
            BlockId { value: (old(inner).block_id_generator.last + 1) as usize },
            old(inner).pos.current_line,
            gc,
            ge,
        ).0);
    }
    Ok(())
}

/// Processes how a line of a paragraph ended. A line break is left to the
/// next line, which tells whether the paragraph goes on.
fn process_normal_end<TStack: Stack<StackEntry>>(
    end: End,
    state: &mut State,
    inner: &mut ParserInner<TStack>,
)
    ensures
        match end {
            End::VerbatimEscaping(v) => {
                &&& old(inner).yields(final(inner), BlockEvent::VerbatimEscaping(v))
                &&& *final(state) == *old(state)
            },
            End::TableRelated(t) => {
                &&& *final(inner) == *old(inner)
                &&& *final(state) == spec_table_related_end_state(t)
            },
            _ => *final(inner) == *old(inner) && *final(state) == *old(state),
        },
        forall|len: nat|
            old(inner).wf(len) && event_within(
                BlockEvent::VerbatimEscaping(end->VerbatimEscaping_0),
                len,
            ) && old(inner).text_queued@ <= end->VerbatimEscaping_0.content.start
                && end->VerbatimEscaping_0.content.end <= old(inner).pos.cursor
                ==> #[trigger] final(inner).wf(len),
{
    match end {
        End::VerbatimEscaping(verbatim_escaping) => {
            inner.yield_event(BlockEvent::VerbatimEscaping(verbatim_escaping));
        },
        End::TableRelated(table_related_end) => {
            table_related_end.process(state);
        },
        _ => {},
    }
}

/// Parses the content of a paragraph on the current line. A blank line ends
/// the paragraph.
#[verifier::rlimit(40)]
pub fn parse_content_and_process<TStack: Stack<StackEntry>>(
    input: &[u8],
    state: &mut State,
    inner: &mut ParserInner<TStack>,
    top_leaf: TopLeafParagraph,
) -> (r: Result<(), Error>)
    requires
        old(inner).text_queued@ + old(inner).current_expecting.spaces_before <= old(inner).pos.cursor,
        pending_ids(*old(state)).len() == 0,
        pending_lines_ok(*old(state), old(inner).pos.current_line.value),
        old(inner).wf(input@.len()),
        old(inner).pos.cursor < input@.len(),
        old(inner).stack.top_leaf is None,
        top_leaf.meta.line_start.value <= old(inner).pos.current_line.value,
    ensures
        pending_ids(*final(state)).len() == 0,
        pending_lines_ok(*final(state), final(inner).pos.current_line.value),
        r is Ok,
        old(inner).steps_to(final(inner), input@.len(), 3),
        final(inner).pos.cursor > old(inner).pos.cursor,
        final(inner).stack.entries() == old(inner).stack.entries(),
        final(inner).block_id_generator == old(inner).block_id_generator,
        *final(state) == *old(state) || is_plain_exiting(*final(state)),
        old(inner).nests(final(inner), seq![top_leaf.meta.id]),
        match final(inner).stack.top_leaf {
            Some(TopLeaf::Paragraph(p)) => p.meta == top_leaf.meta,
            Some(_) => false,
            None => final(inner).to_yield@.last() == spec_exit_event(
                top_leaf.meta,
                final(inner).pos.current_line,
            ),
        },
        paragraph_line_step(old(inner), final(inner), *old(state), *final(state), input@, top_leaf),
{
    let mut top_leaf = top_leaf;
    let ghost t0 = top_leaf;
    let spaces_before = inner.current_expecting.spaces_before();
    let on_table_related = make_table_related_end_condition(inner, false);
    let content_before = if spaces_before > 0 {
        ContentBefore::Space
    } else {
        ContentBefore::NotSpace(0)
    };
    let (mut content, mut end) = normal::parse(
        input,
        &mut inner.pos,
        EndCondition { on_atx_closing: None, on_table_related },
        content_before,
    );
    let ghost gc = content;
    let ghost ge = end;
    proof {
        if end is VerbatimEscaping {
            lemma_ve_content_within(input@, content.end + 2);
            lemma_ve_content_before_cursor(input@, content.end + 2);
        }
    }
    let ghost y0 = old(inner).to_yield@;
    let ghost o = open_ids(&old(inner).stack).push(top_leaf.meta.id);
    assert(open_ids(&old(inner).stack) + seq![top_leaf.meta.id] =~= o);
    assert(o.drop_last() =~= open_ids(&old(inner).stack));
    let ghost mut u: Seq<BlockEvent> = seq![];
    let ghost exit_event = spec_exit_event(top_leaf.meta, inner.pos.current_line);
    let is_still_in_paragraph = content.start < content.end || top_leaf.new_line.is_none()
        || end.is_verbatim_escaping();
    if is_still_in_paragraph {
        match top_leaf.new_line {
            Some(new_line) => {
                inner.yield_event(BlockEvent::NewLine(new_line));
                proof {
                    u = u.push(BlockEvent::NewLine(new_line));
                }
            },
            None => {
                if spaces_before > 0 {
                    // In the middle of a line the spaces belong to the content.
                    content.start = content.start - spaces_before;
                }
            },
        }
        top_leaf.new_line = end.try_take_new_line();
        inner.stack.push_top_leaf(TopLeaf::Paragraph(top_leaf));
        if content.start < content.end {
            let ghost unparsed = BlockEvent::Unparsed(content);
            inner.yield_event(BlockEvent::Unparsed(content));
            proof {
                u = u.push(unparsed);
            }
        }
    } else {
        exit(inner, top_leaf);
    }
    let ghost end_g = end;
    process_normal_end(end, state, inner);
    proof {
        if let End::VerbatimEscaping(v) = end_g {
            u = u.push(BlockEvent::VerbatimEscaping(v));
        }
        if is_still_in_paragraph {
            assert(inner.to_yield@ =~= y0 + u);
            lemma_new_events(old(inner), inner, u);
            lemma_nesting_neutral(o, u);
        } else {
            assert(u =~= seq![]);
            assert(inner.to_yield@ =~= y0 + u.push(exit_event));
            lemma_new_events(old(inner), inner, u.push(exit_event));
            lemma_nesting_neutral_then(o, u, exit_event);
        }
        assert(normal_parsed(
            input@,
            old(inner).pos.cursor as int,
            old(inner).pos.current_line.value as int,
            paragraph_end_condition(old(inner).stack.tables_in_stack as int, false),
            heading_content_before(old(inner).current_expecting.spaces_before as int),
            gc,
            ge,
            inner.pos.cursor as int,
            inner.pos.current_line.value as int,
        ));
        assert(inner.to_yield@ =~= old(inner).to_yield@ + paragraph_step(
            t0,
            old(inner).current_expecting.spaces_before as int,
            gc,
            ge,
            inner.pos.current_line,
        ).0);
    }
    Ok(())
}

/// Exits a paragraph.
pub fn exit<TStack: Stack<StackEntry>>(inner: &mut ParserInner<TStack>, top_leaf: TopLeafParagraph)
    ensures
        old(inner).yields(final(inner), spec_exit_event(top_leaf.meta, old(inner).pos.current_line)),
        forall|len: nat|
            old(inner).wf(len) && top_leaf.meta.line_start.value <= old(inner).pos.current_line.value
                ==> #[trigger] final(inner).wf(len),
{
    inner.yield_event(top_leaf.make_exit_event(inner.current_line()));
}

} // verus!
