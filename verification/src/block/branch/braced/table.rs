use vstd::prelude::*;

use crate::block::line::normal::TableRelated;
use crate::block::nesting::{entry_ids, lemma_entry_ids_push, open_ids};
use crate::block::parser_inner::{lemma_nests_none, lemma_nests_one, ParserInner};
use crate::block::stack_wrapper::{spec_exit_event, Meta, StackEntry, StackEntryTable};
use crate::block::state::{pending_ids, Exiting, ExitingAndThen, ExitingUntil, Expecting, State};
use crate::block::types::{ctx_fits, CursorContext};
use crate::common::{EXCLAMATION, HYPHEN, PIPE, PLUS, RIGHT_BRACE};
use crate::errors::Error;
use crate::events::{BlockEvent, BlockWithId};
use crate::types::BlockId;
use crate::utils::stack::Stack;

verus! {

/// The table-related syntax that ends a line inside a table.
#[derive(Debug, Clone, Copy, PartialEq, Eq)]
pub enum TableRelatedEnd {
    /// `|}`
    TableClosing,
    /// `|+`
    TableCaptionIndicator,
    /// `|-`
    TableRowIndicator,
    /// `!!`
    TableHeaderCellIndicator,
    /// `||`
    DoublePipes,
}

/// The state that a table-related end leads to.
pub open spec fn spec_table_related_end_state(end: TableRelatedEnd) -> State {
    match end {
        TableRelatedEnd::TableClosing => State::Exiting(
            Exiting {
                until: ExitingUntil::TopIsTable { should_also_exit_table: true },
                and_then: Some(ExitingAndThen::ExpectBracedOpening),
            },
        ),
        TableRelatedEnd::TableCaptionIndicator => State::Exiting(
            Exiting {
                until: ExitingUntil::TopIsTable { should_also_exit_table: false },
                and_then: Some(
                    ExitingAndThen::YieldAndExpectBracedOpening(BlockEvent::IndicateTableCaption),
                ),
            },
        ),
        TableRelatedEnd::TableRowIndicator => State::Exiting(
            Exiting {
                until: ExitingUntil::TopIsTable { should_also_exit_table: false },
                and_then: Some(
                    ExitingAndThen::YieldAndExpectBracedOpening(BlockEvent::IndicateTableRow),
                ),
            },
        ),
        TableRelatedEnd::TableHeaderCellIndicator => State::Exiting(
            Exiting {
                until: ExitingUntil::TopIsTable { should_also_exit_table: false },
                and_then: Some(
                    ExitingAndThen::YieldAndExpectBracedOpening(
                        BlockEvent::IndicateTableHeaderCell,
                    ),
                ),
            },
        ),
        TableRelatedEnd::DoublePipes => State::Exiting(
            Exiting {
                until: ExitingUntil::TopIsAwareOfDoublePipes,
                and_then: Some(ExitingAndThen::YieldBasedOnContextAndExpectBracedOpening),
            },
        ),
    }
}

/// The exiting that ends at the table and then yields `ev` before a braced
/// opening is expected.
pub open spec fn exit_to_table_then_yield(ev: BlockEvent) -> State {
    State::Exiting(
        Exiting {
            until: ExitingUntil::TopIsTable { should_also_exit_table: false },
            and_then: Some(ExitingAndThen::YieldAndExpectBracedOpening(ev)),
        },
    )
}

/// What a table-related end does is read off its two bytes: `!!` exits the
/// blocks inside the table and yields exactly a header-cell indicator, `|-`
/// a row indicator and `|+` a caption indicator in the same way, `|}` exits
/// the table itself and yields nothing of its own, and `||` exits up to what
/// knows of double pipes and yields as that context asks. No end yields a
/// data-cell indicator of its own.
pub proof fn lemma_table_related_end_effects(a: u8, b: u8, is_caption_applicable: bool)
    requires
        spec_table_related_end(a, b, is_caption_applicable) is Some,
    ensures
        ({
            let st = spec_table_related_end_state(spec_table_related_end(a, b, is_caption_applicable)->0);
            &&& (a == EXCLAMATION) == (st == exit_to_table_then_yield(BlockEvent::IndicateTableHeaderCell))
            &&& (a == PIPE && b == HYPHEN) == (st == exit_to_table_then_yield(BlockEvent::IndicateTableRow))
            &&& (a == PIPE && b == PLUS) == (st == exit_to_table_then_yield(BlockEvent::IndicateTableCaption))
            &&& (a == PIPE && b == RIGHT_BRACE) == (st == State::Exiting(
                Exiting {
                    until: ExitingUntil::TopIsTable { should_also_exit_table: true },
                    and_then: Some(ExitingAndThen::ExpectBracedOpening),
                },
            ))
            &&& (a == PIPE && b == PIPE) == (st == State::Exiting(
                Exiting {
                    until: ExitingUntil::TopIsAwareOfDoublePipes,
                    and_then: Some(ExitingAndThen::YieldBasedOnContextAndExpectBracedOpening),
                },
            ))
            &&& st != exit_to_table_then_yield(BlockEvent::IndicateTableDataCell)
        }),
{
}

impl TableRelatedEnd {
    /// Exits what the end closes, and then goes on as it calls for.
    pub fn process(self, state: &mut State)
        ensures
            *final(state) == spec_table_related_end_state(self),
    {
        *state = match self {
            TableRelatedEnd::TableClosing => State::Exiting(
                Exiting::new(
                    ExitingUntil::TopIsTable { should_also_exit_table: true },
                    ExitingAndThen::ExpectBracedOpening,
                ),
            ),
            TableRelatedEnd::TableCaptionIndicator => State::Exiting(
                Exiting::new(
                    ExitingUntil::TopIsTable { should_also_exit_table: false },
                    ExitingAndThen::YieldAndExpectBracedOpening(BlockEvent::IndicateTableCaption),
                ),
            ),
            TableRelatedEnd::TableRowIndicator => State::Exiting(
                Exiting::new(
                    ExitingUntil::TopIsTable { should_also_exit_table: false },
                    ExitingAndThen::YieldAndExpectBracedOpening(BlockEvent::IndicateTableRow),
                ),
            ),
            TableRelatedEnd::TableHeaderCellIndicator => State::Exiting(
                Exiting::new(
                    ExitingUntil::TopIsTable { should_also_exit_table: false },
                    ExitingAndThen::YieldAndExpectBracedOpening(
                        BlockEvent::IndicateTableHeaderCell,
                    ),
                ),
            ),
            TableRelatedEnd::DoublePipes => State::Exiting(
                Exiting::new(
                    ExitingUntil::TopIsAwareOfDoublePipes,
                    ExitingAndThen::YieldBasedOnContextAndExpectBracedOpening,
                ),
            ),
        };
    }
}

/// Enters a table whose opening `{|` has just been consumed, and expects a
/// braced opening next.
pub fn enter<TStack: Stack<StackEntry>>(
    state: &mut State,
    inner: &mut ParserInner<TStack>,
    Ghost(len): Ghost<nat>,
) -> (r: Result<(), Error>)
    requires
        pending_ids(*old(state)).len() == 0,
        old(inner).wf(len),
        old(inner).has_ids_for(1),
        old(inner).stack.top_leaf is None,
    ensures
        pending_ids(*final(state)).len() == 0,
        *final(state) == State::Expecting(Expecting::BracedOpening),
        old(inner).steps_to(final(inner), len, 1),
        final(inner).pos == old(inner).pos,
        final(inner).block_id_generator.last == old(inner).block_id_generator.last + 1,
        final(inner).stack.top_leaf is None,
        old(inner).nests(final(inner), seq![]),
        ({
            let entry = StackEntryTable {
                meta: Meta {
                    id: BlockId { value: final(inner).block_id_generator.last },
                    line_start: old(inner).pos.current_line,
                },
            };
            match r {
                Ok(()) => {
                    &&& final(inner).stack.entries() == old(inner).stack.entries().push(
                        StackEntry::Table(entry),
                    )
                    &&& final(inner).to_yield@ == old(inner).to_yield@.push(
                        BlockEvent::EnterTable(BlockWithId { id: entry.meta.id }),
                    )
                },
                Err(e) => {
                    &&& e == Error::OutOfStackSpace
                    &&& final(inner).stack.entries() == old(inner).stack.entries()
                    &&& final(inner).to_yield@ == old(inner).to_yield@
                },
            }
        }),
        (TStack::spec_capacity() matches Some(c) ==> old(inner).stack.entries().len() < c) ==> r is Ok,
{
    *state = State::Expecting(Expecting::BracedOpening);
    let id = inner.pop_block_id();
    let stack_entry = StackEntryTable { meta: Meta::new(id, inner.current_line()) };
    let ev = stack_entry.make_enter_event();
    proof {
        lemma_entry_ids_push(inner.stack.entries(), StackEntry::Table(stack_entry));
        assert(open_ids(&old(inner).stack) + seq![] =~= open_ids(&old(inner).stack));
    }
    match inner.stack.push_table(stack_entry) {
        Ok(()) => {},
        Err(e) => {
            proof {
                lemma_nests_none(old(inner), inner);
            }
            return Err(e);
        },
    }
    inner.yield_event(ev);
    proof {
        lemma_nests_one(old(inner), inner, ev, seq![]);
    }
    Ok(())
}

/// Exits a table.
pub fn exit<TStack: Stack<StackEntry>>(
    inner: &mut ParserInner<TStack>,
    stack_entry: StackEntryTable,
) -> (r: Result<(), Error>)
    ensures
        r is Ok,
        old(inner).yields(final(inner), spec_exit_event(stack_entry.meta, old(inner).pos.current_line)),
        forall|len: nat|
            old(inner).wf(len) && stack_entry.meta.line_start.value <= old(inner).pos.current_line.value
                ==> #[trigger] final(inner).wf(len),
{
    inner.yield_event(stack_entry.make_exit_event(inner.current_line()));
    Ok(())
}

/// The table-related end condition of a line: only inside a table.
pub fn make_table_related_end_condition<TStack: Stack<StackEntry>>(
    inner: &ParserInner<TStack>,
    is_caption_applicable: bool,
) -> (r: Option<TableRelated>)
    ensures
        r == if inner.stack.tables_in_stack > 0 {
            Some(TableRelated { is_caption_applicable })
        } else {
            None
        },
{
    if inner.stack.tables_in_stack() > 0 {
        Some(TableRelated { is_caption_applicable })
    } else {
        None
    }
}

/// The table-related syntax made of the two bytes `a` and `b`, if any.
pub open spec fn spec_table_related_end(a: u8, b: u8, is_caption_applicable: bool) -> Option<
    TableRelatedEnd,
> {
    if a == PIPE {
        if b == RIGHT_BRACE {
            Some(TableRelatedEnd::TableClosing)
        } else if b == PLUS && is_caption_applicable {
            Some(TableRelatedEnd::TableCaptionIndicator)
        } else if b == HYPHEN {
            Some(TableRelatedEnd::TableRowIndicator)
        } else if b == PIPE {
            Some(TableRelatedEnd::DoublePipes)
        } else {
            None
        }
    } else if a == EXCLAMATION && b == EXCLAMATION {
        Some(TableRelatedEnd::TableHeaderCellIndicator)
    } else {
        None
    }
}

/// The table-related syntax at `i` of `s`, if any.
pub open spec fn spec_table_related_end_at(s: Seq<u8>, i: int, is_caption_applicable: bool) -> Option<
    TableRelatedEnd,
> {
    if 0 <= i && i + 1 < s.len() {
        spec_table_related_end(s[i], s[i + 1], is_caption_applicable)
    } else {
        None
    }
}

/// Parses the table-related syntax that may begin at the cursor, whose byte is
/// `first_char`, and consumes it if there is one.
pub fn parse_end<TCtx: CursorContext>(
    input: &[u8],
    ctx: &mut TCtx,
    first_char: u8,
    is_caption_applicable: bool,
) -> (r: Option<TableRelatedEnd>)
    requires
        ctx_fits(old(ctx), input@.len() as int),
        old(ctx).spec_cursor() < input@.len(),
        input@[old(ctx).spec_cursor() as int] == first_char,
    ensures
        ctx_fits(final(ctx), input@.len() as int),
        r == spec_table_related_end_at(input@, old(ctx).spec_cursor() as int, is_caption_applicable),
        r is Some ==> final(ctx).spec_cursor() == old(ctx).spec_cursor() + 2 && final(ctx).spec_line()
            == old(ctx).spec_line(),
        r is None ==> *final(ctx) == *old(ctx),
{
    let len = input.len();
    let cur = ctx.cursor();
    if len - cur < 2 {
        return None;
    }
    let second_char = input[cur + 1];
    let end = if first_char == PIPE {
        if second_char == RIGHT_BRACE {
            TableRelatedEnd::TableClosing
        } else if second_char == PLUS && is_caption_applicable {
            TableRelatedEnd::TableCaptionIndicator
        } else if second_char == HYPHEN {
            TableRelatedEnd::TableRowIndicator
        } else if second_char == PIPE {
            TableRelatedEnd::DoublePipes
        } else {
            return None;
        }
    } else if first_char == EXCLAMATION && second_char == EXCLAMATION {
        TableRelatedEnd::TableHeaderCellIndicator
    } else {
        return None;
    };
    ctx.move_cursor_forward(2);
    Some(end)
}

} // verus!
