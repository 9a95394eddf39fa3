use vstd::prelude::*;

use crate::block::branch::braced::{self, braced_opened};
use crate::block::nesting::{lemma_entry_ids_push, open_ids};
use crate::block::parser_inner::{lemma_nests_none, lemma_nests_one, lemma_nests_two, ParserInner};
use crate::block::stack_wrapper::{
    spec_exit_event, GeneralItemLike, ItemLikeContainer, Meta, StackEntry, StackEntryItemLike,
    StackEntryItemLikeContainer,
};
use crate::block::state::{ids_increasing_within, pending_ids, pending_lines_ok,
    is_plain_exiting, nth_item_like_container_from, Exiting, ExitingAndThen, ExitingUntil,
    Expecting, ItemLikesState, ItemLikesStateMatchingLastLine, State,
};
use crate::common::{ASTERISK, COLON, CR, GT, HASH, LF, SEMICOLON, SPACE};
use crate::errors::Error;
use crate::events::BlockEvent;
use crate::types::BlockId;
use crate::utils::stack::Stack;

verus! {

/// The container and the item-like block that a marker opens: `#` an item
/// of an ordered list, `*` of an unordered one, `;` a term and `:` details
/// of a description list.
pub open spec fn marker_opens(b: u8) -> Option<(ItemLikeContainer, GeneralItemLike)> {
    if b == HASH {
        Some((ItemLikeContainer::OL, GeneralItemLike::LI))
    } else if b == ASTERISK {
        Some((ItemLikeContainer::UL, GeneralItemLike::LI))
    } else if b == SEMICOLON {
        Some((ItemLikeContainer::DL, GeneralItemLike::DT))
    } else if b == COLON {
        Some((ItemLikeContainer::DL, GeneralItemLike::DD))
    } else {
        None
    }
}

/// Opening an item-like block, or else what comes after, went from `old`
/// to `new`, from the state `old_state` to `new_state`, and the matching of
/// the item-like blocks of the last line from `old_ils` to `new_ils`: a
/// marker followed by a space or the end of the line is consumed and
/// processed; otherwise, while containers of the last line are left
/// unmatched, the blocks after the matched ones are exited, and else a
/// braced opening is tried.
pub open spec fn item_like_opened<TStack: Stack<StackEntry>>(
    old: &ParserInner<TStack>,
    new: &ParserInner<TStack>,
    old_state: State,
    new_state: State,
    old_ils: ItemLikesState,
    new_ils: ItemLikesState,
    input: Seq<u8>,
    first_char: u8,
    r: Result<(), Error>,
) -> bool {
    let s = input;
    let c = old.pos.cursor as int;
    let at_end_of_line = c + 1 >= s.len() || s[c + 1] == CR || s[c + 1] == LF;
    let opens = at_end_of_line || s[c + 1] == SPACE;
    let after = if at_end_of_line {
        c + 1
    } else {
        c + 2
    };
    let opened = marker_opens(first_char)->0;
    if opens && first_char == GT {
        &&& new.pos.cursor == after
        &&& new_state == old_state
        &&& greater_than_processed(
            old,
            new,
            old_ils,
            new_ils,
            r,
        )
    } else if opens && marker_opens(first_char) is Some {
        &&& new.pos.cursor == after
        &&& general_opening_processed(
            old,
            new,
            old_state,
            new_state,
            old_ils,
            new_ils,
            opened.0,
            opened.1,
            r,
        )
    } else if old_ils is MatchingLastLine {
        &&& r is Ok
        &&& new_ils == old_ils
        &&& new.pos == old.pos
        &&& new.to_yield@ == old.to_yield@
        &&& new.stack.entries() == old.stack.entries()
        &&& new_state == State::Exiting(
            Exiting {
                until: ExitingUntil::OnlyNItemLikesRemain {
                    n: old_ils->MatchingLastLine_0.processed_item_likes,
                    should_also_exit_containee_in_last_container: false,
                },
                and_then: Some(ExitingAndThen::ExpectBracedOpening),
            },
        )
    } else {
        &&& new_ils == old_ils
        &&& braced_opened(
            old,
            new,
            State::Expecting(Expecting::BracedOpening),
            new_state,
            input,
            first_char,
            r,
        )
    }
}

/// Parses the opening of an item-like block (a block quote, a list item, a
/// description term or details) at the cursor, whose byte is `first_char`,
/// and processes it. Where there is none, the item-like blocks of the last
/// line that were not matched are exited, or, if all were, the braced
/// openings are tried.
pub fn parse_opening_and_process<TStack: Stack<StackEntry>>(
    input: &[u8],
    state: &mut State,
    inner: &mut ParserInner<TStack>,
    item_likes_state: &mut ItemLikesState,
    first_char: u8,
) -> (r: Result<(), Error>)
    requires
        pending_ids(*old(state)).len() == 0,
        pending_lines_ok(*old(state), old(inner).pos.current_line.value),
        old(inner).wf(input@.len()),
        old(inner).pos.cursor < input@.len(),
        input@[old(inner).pos.cursor as int] == first_char,
        old(item_likes_state).spec_has_unprocessed() || old(inner).stack.top_leaf is None,
    ensures
        ids_increasing_within(pending_ids(*final(state)), final(inner).block_id_generator.queued@, final(inner).block_id_generator.last as int),
        pending_lines_ok(*final(state), final(inner).pos.current_line.value),
        old(inner).steps_to(final(inner), input@.len(), 3),
        final(inner).pos.cursor > old(inner).pos.cursor || (final(inner).pos == old(inner).pos
            && is_plain_exiting(*final(state))),
        final(inner).block_id_generator.last <= old(inner).block_id_generator.last + 2,
        *final(state) is Expecting || is_plain_exiting(*final(state)) || *final(state) == *old(state),
        r matches Err(e) ==> e == Error::OutOfStackSpace && final(inner).stack.is_full(),
        old(inner).nests(final(inner), seq![]),
        item_like_opened(
            old(inner),
            final(inner),
            *old(state),
            *final(state),
            *old(item_likes_state),
            *final(item_likes_state),
            input@,
            first_char,
            r,
        ),
{
    if first_char == GT && is_indeed_opening_and_consume_if_true(input, inner) {
        process_greater_than_opening(inner, item_likes_state, Ghost(input@.len()))
    } else if first_char == HASH && is_indeed_opening_and_consume_if_true(input, inner) {
        process_general_opening(
            state,
            inner,
            item_likes_state,
            ItemLikeContainer::OL,
            GeneralItemLike::LI,
            Ghost(input@.len()),
        )
    } else if first_char == ASTERISK && is_indeed_opening_and_consume_if_true(input, inner) {
        process_general_opening(
            state,
            inner,
            item_likes_state,
            ItemLikeContainer::UL,
            GeneralItemLike::LI,
            Ghost(input@.len()),
        )
    } else if first_char == SEMICOLON && is_indeed_opening_and_consume_if_true(input, inner) {
        process_general_opening(
            state,
            inner,
            item_likes_state,
            ItemLikeContainer::DL,
            GeneralItemLike::DT,
            Ghost(input@.len()),
        )
    } else if first_char == COLON && is_indeed_opening_and_consume_if_true(input, inner) {
        process_general_opening(
            state,
            inner,
            item_likes_state,
            ItemLikeContainer::DL,
            GeneralItemLike::DD,
            Ghost(input@.len()),
        )
    } else {
        match *item_likes_state {
            ItemLikesState::MatchingLastLine(matching_last_line) => {
                *state = State::Exiting(
                    Exiting::new(
                        ExitingUntil::OnlyNItemLikesRemain {
                            n: matching_last_line.processed_item_likes(),
                            should_also_exit_containee_in_last_container: false,
                        },
                        ExitingAndThen::ExpectBracedOpening,
                    ),
                );
                proof {
                    lemma_nests_none(old(inner), inner);
                }
                Ok(())
            },
            ItemLikesState::ProcessingNew => {
                *state = State::Expecting(Expecting::BracedOpening);
                braced::parse_opening_and_process(input, state, inner, first_char)
            },
        }
    }
}

/// The matching of the item-like containers of the last line after one more
/// is matched: done once all are.
pub open spec fn matched_one_more(m: ItemLikesStateMatchingLastLine) -> ItemLikesState {
    let next = ItemLikesStateMatchingLastLine {
        item_likes_in_stack_at_last_line: m.item_likes_in_stack_at_last_line,
        processed_item_likes: (m.processed_item_likes + 1) as usize,
    };
    if next.processed_item_likes == next.item_likes_in_stack_at_last_line {
        ItemLikesState::ProcessingNew
    } else {
        ItemLikesState::MatchingLastLine(next)
    }
}

/// The block entered at the current line of `inner` with the `k`-th next id.
pub open spec fn next_meta<TStack: Stack<StackEntry>>(inner: &ParserInner<TStack>, k: int) -> Meta {
    Meta {
        id: BlockId { value: (inner.block_id_generator.last + k) as usize },
        line_start: inner.pos.current_line,
    }
}

/// Processing a `>` opening went from `old` to `new`, and the matching of
/// the item-like blocks of the last line from `old_ils` to `new_ils`: while
/// containers of the last line are left unmatched, the next one is matched;
/// otherwise a block quote is entered with the next id (unless the stack is
/// full).
pub open spec fn greater_than_processed<TStack: Stack<StackEntry>>(
    old: &ParserInner<TStack>,
    new: &ParserInner<TStack>,
    old_ils: ItemLikesState,
    new_ils: ItemLikesState,
    r: Result<(), Error>,
) -> bool {
    if old_ils.spec_has_unprocessed() {
        &&& r is Ok
        &&& new_ils == matched_one_more(old_ils->MatchingLastLine_0)
        &&& new.to_yield@ == old.to_yield@
        &&& new.stack.entries() == old.stack.entries()
    } else {
        let entry = StackEntryItemLikeContainer {
            meta: next_meta(old, 1),
            typ: ItemLikeContainer::BlockQuote,
        };
        &&& new_ils == ItemLikesState::ProcessingNew
        &&& match r {
            Ok(()) => {
                &&& new.stack.entries() == old.stack.entries().push(
                    StackEntry::ItemLikeContainer(entry),
                )
                &&& new.to_yield@ == old.to_yield@.push(entry.spec_enter_event())
            },
            Err(_) => {
                &&& new.stack.entries() == old.stack.entries()
                &&& new.to_yield@ == old.to_yield@
            },
        }
        &&& (TStack::spec_capacity() matches Some(c) ==> old.stack.entries().len() < c)
            ==> r is Ok
    }
}

/// Processing the opening of an item-like block within `container` went
/// from `old` to `new`, from the state `old_state` to `new_state`, and the
/// matching of the item-like blocks of the last line from `old_ils` to
/// `new_ils`: while containers of the last line are left unmatched, the
/// opening either matches the next one, and the blocks inside it are exited
/// before the item-like block is entered, or it does not, and the blocks
/// after the matched ones are exited before a new container and item-like
/// block are entered; otherwise both are entered at once (unless the stack
/// is full).
pub open spec fn general_opening_processed<TStack: Stack<StackEntry>>(
    old: &ParserInner<TStack>,
    new: &ParserInner<TStack>,
    old_state: State,
    new_state: State,
    old_ils: ItemLikesState,
    new_ils: ItemLikesState,
    container: ItemLikeContainer,
    item_like: GeneralItemLike,
    r: Result<(), Error>,
) -> bool {
    if old_ils.spec_has_unprocessed() {
        let m = old_ils->MatchingLastLine_0;
        let entries = old.stack.entries();
        let same = nth_item_like_container_from(entries, m.processed_item_likes as nat, 0) matches Some(
            i,
        ) && entries[i] matches StackEntry::ItemLikeContainer(c) && c.typ == container;
        &&& r is Ok
        &&& new.to_yield@ == old.to_yield@
        &&& new.stack.entries() == entries
        &&& if same {
            let next = ItemLikesStateMatchingLastLine {
                item_likes_in_stack_at_last_line: m.item_likes_in_stack_at_last_line,
                processed_item_likes: (m.processed_item_likes + 1) as usize,
            };
            &&& new_ils == ItemLikesState::MatchingLastLine(next)
            &&& new_state == State::Exiting(
                Exiting {
                    until: ExitingUntil::OnlyNItemLikesRemain {
                        n: next.processed_item_likes,
                        should_also_exit_containee_in_last_container: true,
                    },
                    and_then: Some(
                        ExitingAndThen::EnterItemLikeAndExpectItemLike {
                            container: None,
                            item_like: StackEntryItemLike { meta: next_meta(old, 1), typ: item_like },
                        },
                    ),
                },
            )
        } else {
            &&& new_ils == old_ils
            &&& new_state == State::Exiting(
                Exiting {
                    until: ExitingUntil::OnlyNItemLikesRemain {
                        n: m.processed_item_likes,
                        should_also_exit_containee_in_last_container: false,
                    },
                    and_then: Some(
                        ExitingAndThen::EnterItemLikeAndExpectItemLike {
                            container: Some(
                                StackEntryItemLikeContainer { meta: next_meta(old, 1), typ: container },
                            ),
                            item_like: StackEntryItemLike { meta: next_meta(old, 2), typ: item_like },
                        },
                    ),
                },
            )
        }
    } else {
        let c = StackEntryItemLikeContainer { meta: next_meta(old, 1), typ: container };
        let i = StackEntryItemLike { meta: next_meta(old, 2), typ: item_like };
        let entries = old.stack.entries();
        &&& new_ils == ItemLikesState::ProcessingNew
        &&& new_state == old_state
        &&& match r {
            Ok(()) => {
                &&& new.stack.entries() == entries.push(StackEntry::ItemLikeContainer(c)).push(
                    StackEntry::ItemLike(i),
                )
                &&& new.to_yield@ == old.to_yield@.push(c.spec_enter_event()).push(
                    i.spec_enter_event(),
                )
            },
            Err(_) => {
                ||| {
                    &&& new.stack.entries() == entries
                    &&& new.to_yield@ == old.to_yield@
                }
                ||| {
                    &&& new.stack.entries() == entries.push(StackEntry::ItemLikeContainer(c))
                    &&& new.to_yield@ == old.to_yield@.push(c.spec_enter_event())
                }
            },
        }
        &&& (TStack::spec_capacity() matches Some(cap) ==> entries.len() + 1 < cap) ==> r is Ok
    }
}

/// Processes a `>` opening, which has just been consumed: it matches the next
/// item-like container of the last line, or opens a new block quote.
fn process_greater_than_opening<TStack: Stack<StackEntry>>(
    inner: &mut ParserInner<TStack>,
    item_likes_state: &mut ItemLikesState,
    Ghost(len): Ghost<nat>,
) -> (r: Result<(), Error>)
    requires
        old(inner).wf(len),
        old(inner).has_ids_for(1),
        old(item_likes_state).spec_has_unprocessed() || old(inner).stack.top_leaf is None,
    ensures
        old(inner).steps_to(final(inner), len, 1),
        final(inner).pos == old(inner).pos,
        final(inner).block_id_generator.last <= old(inner).block_id_generator.last + 1,
        r matches Err(e) ==> e == Error::OutOfStackSpace && final(inner).stack.is_full(),
        old(inner).nests(final(inner), seq![]),
        greater_than_processed(old(inner), final(inner), *old(item_likes_state), *final(item_likes_state), r),
{
    proof {
        assert(open_ids(&old(inner).stack) + seq![] =~= open_ids(&old(inner).stack));
    }
    match *item_likes_state {
        ItemLikesState::MatchingLastLine(matching_last_line) => {
            if matching_last_line.has_unprocessed_item_likes_at_current_line() {
                let mut matching_last_line = matching_last_line;
                let is_all_processed =
                    matching_last_line.mark_first_unprocessed_item_like_as_processed_at_current_line();
                *item_likes_state = if is_all_processed {
                    ItemLikesState::ProcessingNew
                } else {
                    ItemLikesState::MatchingLastLine(matching_last_line)
                };
                proof {
                    lemma_nests_none(old(inner), inner);
                }
                return Ok(());
            }
            *item_likes_state = ItemLikesState::ProcessingNew;
        },
        ItemLikesState::ProcessingNew => {},
    }
    let id = inner.pop_block_id();
    let stack_entry = StackEntryItemLikeContainer {
        meta: Meta::new(id, inner.current_line()),
        typ: ItemLikeContainer::BlockQuote,
    };
    let ev = stack_entry.make_enter_event();
    proof {
        lemma_entry_ids_push(inner.stack.entries(), StackEntry::ItemLikeContainer(stack_entry));
    }
    match inner.stack.push_item_like_container(stack_entry) {
        Ok(()) => {},
        Err(e) => {
            proof {
                lemma_nests_none(old(inner), inner);
            }
            return Err(e);
        },
    }
    inner.yield_event(ev);
    proof {
        lemma_nests_one(old(inner), inner, ev, seq![]);
    }
    Ok(())
}

/// Processes the opening of an item-like block within `container`, which has
/// just been consumed.
fn process_general_opening<TStack: Stack<StackEntry>>(
    state: &mut State,
    inner: &mut ParserInner<TStack>,
    item_likes_state: &mut ItemLikesState,
    container: ItemLikeContainer,
    item_like: GeneralItemLike,
    Ghost(len): Ghost<nat>,
) -> (r: Result<(), Error>)
    requires
        pending_ids(*old(state)).len() == 0,
        pending_lines_ok(*old(state), old(inner).pos.current_line.value),
        old(inner).wf(len),
        old(inner).has_ids_for(2),
        old(item_likes_state).spec_has_unprocessed() || old(inner).stack.top_leaf is None,
    ensures
        ids_increasing_within(pending_ids(*final(state)), final(inner).block_id_generator.queued@, final(inner).block_id_generator.last as int),
        pending_lines_ok(*final(state), final(inner).pos.current_line.value),
        old(inner).steps_to(final(inner), len, 2),
        final(inner).pos == old(inner).pos,
        final(inner).block_id_generator.last <= old(inner).block_id_generator.last + 2,
        *final(state) == *old(state) || is_plain_exiting(*final(state)),
        r matches Err(e) ==> e == Error::OutOfStackSpace && final(inner).stack.is_full(),
        old(inner).nests(final(inner), seq![]),
        general_opening_processed(
            old(inner),
            final(inner),
            *old(state),
            *final(state),
            *old(item_likes_state),
            *final(item_likes_state),
            container,
            item_like,
            r,
        ),
{
    proof {
        assert(open_ids(&old(inner).stack) + seq![] =~= open_ids(&old(inner).stack));
    }
    match *item_likes_state {
        ItemLikesState::MatchingLastLine(matching_last_line) => {
            if matching_last_line.has_unprocessed_item_likes_at_current_line() {
                let mut matching_last_line = matching_last_line;
                let first = matching_last_line.first_unprocessed_item_like(inner.stack.as_slice());
                let is_same_container = match first {
                    Some(c) => c == container,
                    None => false,
                };
                if is_same_container {
                    matching_last_line.mark_first_unprocessed_item_like_as_processed_at_current_line();
                    *item_likes_state = ItemLikesState::MatchingLastLine(matching_last_line);
                    let item_like = make_stack_entry_from_general_item_like(item_like, inner);
                    *state = State::Exiting(
                        Exiting::new(
                            ExitingUntil::OnlyNItemLikesRemain {
                                n: matching_last_line.processed_item_likes(),
                                should_also_exit_containee_in_last_container: true,
                            },
                            ExitingAndThen::EnterItemLikeAndExpectItemLike {
                                container: None,
                                item_like,
                            },
                        ),
                    );
                } else {
                    let container = make_stack_entry_from_item_like_container(container, inner);
                    let item_like = make_stack_entry_from_general_item_like(item_like, inner);
                    *state = State::Exiting(
                        Exiting::new(
                            ExitingUntil::OnlyNItemLikesRemain {
                                n: matching_last_line.processed_item_likes(),
                                should_also_exit_containee_in_last_container: false,
                            },
                            ExitingAndThen::EnterItemLikeAndExpectItemLike {
                                container: Some(container),
                                item_like,
                            },
                        ),
                    );
                }
                proof {
                    lemma_nests_none(old(inner), inner);
                }
                return Ok(());
            }
            *item_likes_state = ItemLikesState::ProcessingNew;
        },
        ItemLikesState::ProcessingNew => {},
    }
    let stack_entry = make_stack_entry_from_item_like_container(container, inner);
    let ev = stack_entry.make_enter_event();
    proof {
        lemma_entry_ids_push(inner.stack.entries(), StackEntry::ItemLikeContainer(stack_entry));
    }
    match inner.stack.push_item_like_container(stack_entry) {
        Ok(()) => {},
        Err(e) => {
            proof {
                lemma_nests_none(old(inner), inner);
            }
            return Err(e);
        },
    }
    inner.yield_event(ev);
    let ghost after_container = *inner;
    let ghost ev1 = ev;
    proof {
        lemma_nests_one(old(inner), inner, ev, seq![]);
    }
    let stack_entry = make_stack_entry_from_general_item_like(item_like, inner);
    let ev = stack_entry.make_enter_event();
    proof {
        lemma_entry_ids_push(inner.stack.entries(), StackEntry::ItemLike(stack_entry));
    }
    match inner.stack.push_item_like(stack_entry) {
        Ok(()) => {},
        Err(e) => {
            proof {
                lemma_nests_one(old(inner), inner, ev1, seq![]);
            }
            return Err(e);
        },
    }
    inner.yield_event(ev);
    proof {
        lemma_nests_two(old(inner), inner, ev1, open_ids(&after_container.stack), ev, seq![]);
    }
    Ok(())
}

/// Whether the marker at the cursor is indeed an opening: followed by a
/// space (both are consumed) or by the end of the line (the marker is
/// consumed).
fn is_indeed_opening_and_consume_if_true<TStack: Stack<StackEntry>>(
    input: &[u8],
    inner: &mut ParserInner<TStack>,
) -> (r: bool)
    requires
        old(inner).wf(input@.len()),
        old(inner).pos.cursor < input@.len(),
    ensures
        final(inner).wf(input@.len()),
        final(inner).to_yield == old(inner).to_yield,
        final(inner).stack == old(inner).stack,
        final(inner).block_id_generator == old(inner).block_id_generator,
        final(inner).current_expecting == old(inner).current_expecting,
        final(inner).has_just_entered_table == old(inner).has_just_entered_table,
        final(inner).pos.current_line == old(inner).pos.current_line,
        final(inner).text_queued == old(inner).text_queued,
        final(inner).text_taken == old(inner).text_taken,
        ({
            let s = input@;
            let c = old(inner).pos.cursor as int;
            if c + 1 >= s.len() || s[c + 1] == CR || s[c + 1] == LF {
                r && final(inner).pos.cursor == c + 1
            } else if s[c + 1] == SPACE {
                r && final(inner).pos.cursor == c + 2
            } else {
                !r && final(inner).pos == old(inner).pos
            }
        }),
{
    let len = input.len();
    let cursor = inner.cursor();
    if cursor + 1 < len {
        let next = input[cursor + 1];
        if next == SPACE {
            inner.move_cursor_forward(2);
        } else if next == CR || next == LF {
            inner.move_cursor_forward(1);
        } else {
            return false;
        }
    } else {
        inner.move_cursor_forward(1);
    }
    true
}

/// Makes the entry of an item-like block, taking the next block id.
fn make_stack_entry_from_general_item_like<TStack: Stack<StackEntry>>(
    item_like: GeneralItemLike,
    inner: &mut ParserInner<TStack>,
) -> (r: StackEntryItemLike)
    requires
        old(inner).block_id_generator.last < usize::MAX,
    ensures
        final(inner).block_id_generator.last == old(inner).block_id_generator.last + 1,
        final(inner).block_id_generator.queued == old(inner).block_id_generator.queued,
        final(inner).block_id_generator.taken == old(inner).block_id_generator.taken,
        final(inner).pos == old(inner).pos,
        final(inner).text_queued == old(inner).text_queued,
        final(inner).text_taken == old(inner).text_taken,
        final(inner).stack == old(inner).stack,
        final(inner).to_yield == old(inner).to_yield,
        final(inner).current_expecting == old(inner).current_expecting,
        r == (StackEntryItemLike {
            meta: Meta {
                id: BlockId { value: final(inner).block_id_generator.last },
                line_start: old(inner).pos.current_line,
            },
            typ: item_like,
        }),
{
    StackEntryItemLike { meta: Meta::new(inner.pop_block_id(), inner.current_line()), typ: item_like }
}

/// Makes the entry of an item-like container, taking the next block id.
fn make_stack_entry_from_item_like_container<TStack: Stack<StackEntry>>(
    container: ItemLikeContainer,
    inner: &mut ParserInner<TStack>,
) -> (r: StackEntryItemLikeContainer)
    requires
        old(inner).block_id_generator.last < usize::MAX,
    ensures
        final(inner).block_id_generator.last == old(inner).block_id_generator.last + 1,
        final(inner).block_id_generator.queued == old(inner).block_id_generator.queued,
        final(inner).block_id_generator.taken == old(inner).block_id_generator.taken,
        final(inner).pos == old(inner).pos,
        final(inner).text_queued == old(inner).text_queued,
        final(inner).text_taken == old(inner).text_taken,
        final(inner).stack == old(inner).stack,
        final(inner).to_yield == old(inner).to_yield,
        final(inner).current_expecting == old(inner).current_expecting,
        r == (StackEntryItemLikeContainer {
            meta: Meta {
                id: BlockId { value: final(inner).block_id_generator.last },
                line_start: old(inner).pos.current_line,
            },
            typ: container,
        }),
{
    StackEntryItemLikeContainer {
        meta: Meta::new(inner.pop_block_id(), inner.current_line()),
        typ: container,
    }
}

/// Exits an item-like container.
pub fn exit_container<TStack: Stack<StackEntry>>(
    inner: &mut ParserInner<TStack>,
    stack_entry: StackEntryItemLikeContainer,
) -> (r: Result<(), Error>)
    ensures
        r is Ok,
        old(inner).yields(final(inner), spec_exit_event(stack_entry.meta, old(inner).pos.current_line)),
        forall|len: nat|
            old(inner).wf(len) && stack_entry.meta.line_start.value <= old(inner).pos.current_line.value
                ==> #[trigger] final(inner).wf(len),
{
    inner.yield_event(stack_entry.make_exit_event(inner.current_line()));
    Ok(())
}

/// Exits an item-like block.
pub fn exit<TStack: Stack<StackEntry>>(
    inner: &mut ParserInner<TStack>,
    stack_entry: StackEntryItemLike,
) -> (r: Result<(), Error>)
    ensures
        r is Ok,
        old(inner).yields(final(inner), spec_exit_event(stack_entry.meta, old(inner).pos.current_line)),
        forall|len: nat|
            old(inner).wf(len) && stack_entry.meta.line_start.value <= old(inner).pos.current_line.value
                ==> #[trigger] final(inner).wf(len),
{
    inner.yield_event(stack_entry.make_exit_event(inner.current_line()));
    Ok(())
}

} // verus!
