pub mod branch;
pub mod leaf;
pub mod line;
pub mod nesting;
pub mod parser_inner;
pub mod stack_wrapper;
pub mod state;
pub mod test_support;
pub mod types;
pub mod utils;

use vstd::prelude::*;

use crate::block::branch::braced::{self, braced_opened, table};
use crate::block::branch::item_like::{self, item_like_opened};
use crate::block::leaf::leaf_opened;
use crate::block::leaf::{code_block, heading, paragraph};
use crate::block::nesting::{
    entry_ids, ids_fresh, ids_grow, lemma_entry_ids_drop_last, lemma_entry_ids_push,
    lemma_ids_fresh_drop_first, lemma_ids_fresh_push, lemma_nesting_append, lemma_nesting_extend,
    lemma_texts_fresh_drop_first, lemma_texts_fresh_push, leaf_id, nesting_after, open_ids,
    text_range, texts_fresh, texts_in_order,
};
use crate::block::parser_inner::{
    event_within, lines_ordered, lemma_new_events, lemma_nests_none, lemma_nests_trans, ParserInner,
};
use crate::block::stack_wrapper::spec_exit_event;
use crate::block::stack_wrapper::{
    Meta, StackEntry, StackWrapper, TopLeaf, TopLeafCodeBlockState,
};
use crate::block::state::{
    ids_increasing_within, is_indicator, is_exiting_to_end, pending_ids, pending_lines_ok,
    is_plain_exiting, state_rank, Exiting, ExitingAndThen, ExitingUntil, Expecting, ItemLikesState,
    ItemLikesStateMatchingLastLine, State,
};
use crate::block::utils::{count_continuous_character, run_len};
use crate::common::SPACE;
use crate::errors::Error;
use crate::events::BlockEvent;
use crate::types::{BlockId, LineNumber};
use crate::utils::stack::Stack;

verus! {

/// The block that a stack entry stands for.
pub open spec fn entry_meta(e: StackEntry) -> Meta {
    match e {
        StackEntry::ItemLike(x) => x.meta,
        StackEntry::ItemLikeContainer(x) => x.meta,
        StackEntry::Table(x) => x.meta,
    }
}

/// The events that exit the leaf block `l` on line `line`: a code block
/// still in its info string indicates its (empty) code first.
pub open spec fn leaf_exit_events(l: TopLeaf, line: LineNumber) -> Seq<BlockEvent> {
    match l {
        TopLeaf::Paragraph(p) => seq![spec_exit_event(p.meta, line)],
        TopLeaf::Heading(h) => seq![spec_exit_event(h.meta, line)],
        TopLeaf::CodeBlock(c) => if c.state is InInfoString {
            seq![BlockEvent::IndicateCodeBlockCode, spec_exit_event(c.meta, line)]
        } else {
            seq![spec_exit_event(c.meta, line)]
        },
    }
}

/// For an exiting until `until`, with no leaf block on top of `st`: whether
/// it is done, whether the top entry is exited first, and the indicator that
/// the context calls for afterwards. With nothing left to exit, it is done.
pub open spec fn exiting_check<TStack: Stack<StackEntry>>(
    until: ExitingUntil,
    st: &StackWrapper<TStack>,
) -> (bool, bool, Option<BlockEvent>) {
    let entries = st.entries();
    let top_is_table = entries.len() > 0 && entries.last() is Table;
    let (done, exit_top, ctx): (bool, bool, Option<BlockEvent>) = match until {
        ExitingUntil::OnlyNItemLikesRemain { n, should_also_exit_containee_in_last_container } => {
            let d = st.item_likes_in_stack == n && (!should_also_exit_containee_in_last_container || (
            entries.len() > 0 && entries.last() is ItemLikeContainer));
            (d, !d, None)
        },
        ExitingUntil::TopIsTable { should_also_exit_table } => (
            top_is_table,
            !top_is_table || should_also_exit_table,
            None,
        ),
        ExitingUntil::TopIsAwareOfDoublePipes => if top_is_table {
            (true, false, Some(BlockEvent::IndicateTableDataCell))
        } else {
            (false, true, None)
        },
        ExitingUntil::StackIsEmpty => (entries.len() == 0, entries.len() != 0, None),
    };
    if entries.len() == 0 {
        (true, false, ctx)
    } else {
        (done, exit_top, ctx)
    }
}

/// What comes after an exiting that is done, from the entries `entries0`
/// and the pending events `to_yield0`, to `new`, and from the matching of the
/// item-like blocks of the last line `ils0` to `ils1`: the item-like blocks
/// to enter are entered (unless the stack is full), an indicator is queued
/// where asked, and the new state is the one asked for.
pub open spec fn after_exited<TStack: Stack<StackEntry>>(
    entries0: Seq<StackEntry>,
    to_yield0: Seq<BlockEvent>,
    new: &ParserInner<TStack>,
    ils0: ItemLikesState,
    ils1: ItemLikesState,
    and_then: ExitingAndThen,
    ctx: Option<BlockEvent>,
    r: Result<State, Error>,
) -> bool {
    let braced = State::Expecting(Expecting::BracedOpening);
    match and_then {
        ExitingAndThen::EnterItemLikeAndExpectItemLike { container, item_like } => {
            let first: Seq<StackEntry> = match container {
                Some(c) => seq![StackEntry::ItemLikeContainer(c)],
                None => seq![],
            };
            let first_events: Seq<BlockEvent> = match container {
                Some(c) => seq![c.spec_enter_event()],
                None => seq![],
            };
            match r {
                Ok(st) => {
                    &&& st == State::Expecting(Expecting::ItemLikeOpening)
                    &&& ils1 == ItemLikesState::ProcessingNew
                    &&& new.stack.entries() == entries0 + first + seq![StackEntry::ItemLike(item_like)]
                    &&& new.to_yield@ == to_yield0 + first_events + seq![item_like.spec_enter_event()]
                },
                Err(_) => {
                    &&& ils1 == ils0
                    &&& new.stack.is_full()
                    &&& {
                        ||| new.stack.entries() == entries0 && new.to_yield@ == to_yield0
                        ||| container is Some && new.stack.entries() == entries0 + first
                            && new.to_yield@ == to_yield0 + first_events
                    }
                },
            }
        },
        ExitingAndThen::ExpectBracedOpening => r == Ok::<State, Error>(braced) && ils1 == ils0
            && new.stack.entries() == entries0 && new.to_yield@ == to_yield0,
        ExitingAndThen::YieldAndExpectBracedOpening(ev) => r == Ok::<State, Error>(braced) && ils1
            == ils0 && new.stack.entries() == entries0 && new.to_yield@ == to_yield0.push(ev),
        ExitingAndThen::YieldBasedOnContextAndExpectBracedOpening => r == Ok::<State, Error>(braced)
            && ils1 == ils0 && new.stack.entries() == entries0 && new.to_yield@ == match ctx {
            Some(ev) => to_yield0.push(ev),
            None => to_yield0,
        },
        ExitingAndThen::End => r == Ok::<State, Error>(State::Ended) && ils1 == ils0
            && new.stack.entries() == entries0 && new.to_yield@ == to_yield0,
    }
}

/// One step of the exiting `ex`, from `old` to `new`, with the matching of
/// the item-like blocks of the last line going from `ils0` to `ils1`, and the
/// exiting left as `ex1`: a leaf block on top is exited first; otherwise the
/// top entry is exited where the exiting calls for it, and once the exiting
/// is done what comes after it makes the new state.
pub open spec fn exit_stepped<TStack: Stack<StackEntry>>(
    old: &ParserInner<TStack>,
    new: &ParserInner<TStack>,
    ils0: ItemLikesState,
    ils1: ItemLikesState,
    ex: Exiting,
    ex1: Exiting,
    r: Result<Option<State>, Error>,
) -> bool {
    let line = old.pos.current_line;
    match old.stack.top_leaf {
        Some(l) => {
            &&& r == Ok::<Option<State>, Error>(None)
            &&& ex1 == ex
            &&& ils1 == ils0
            &&& new.stack.top_leaf is None
            &&& new.stack.entries() == old.stack.entries()
            &&& new.to_yield@ == old.to_yield@ + leaf_exit_events(l, line)
        },
        None => {
            let (done, exit_top, ctx) = exiting_check(ex.until, &old.stack);
            let entries = old.stack.entries();
            let entries1 = if exit_top {
                entries.drop_last()
            } else {
                entries
            };
            let to_yield1 = if exit_top {
                old.to_yield@.push(spec_exit_event(entry_meta(entries.last()), line))
            } else {
                old.to_yield@
            };
            &&& new.stack.top_leaf is None
            &&& if !done {
                &&& r == Ok::<Option<State>, Error>(None)
                &&& ex1 == ex
                &&& ils1 == ils0
                &&& new.stack.entries() == entries1
                &&& new.to_yield@ == to_yield1
            } else {
                match ex.and_then {
                    None => r == Ok::<Option<State>, Error>(Some(State::Ended)) && ils1 == ils0
                        && new.stack.entries() == entries1 && new.to_yield@ == to_yield1,
                    Some(a) => match r {
                        Ok(Some(st)) => after_exited(entries1, to_yield1, new, ils0, ils1, a, ctx, Ok(st)),
                        Ok(None) => false,
                        Err(e) => after_exited(entries1, to_yield1, new, ils0, ils1, a, ctx, Err(e)),
                    },
                }
            }
        },
    }
}

/// `new` is `old` with only the flag that asks for a reset of the state
/// made `flag` (and the ghost bookkeeping of texts left as it is).
pub open spec fn only_flag_set<TStack: Stack<StackEntry>>(
    old: &ParserInner<TStack>,
    new: &ParserInner<TStack>,
    flag: bool,
) -> bool {
    &&& new.pos == old.pos
    &&& new.to_yield@ == old.to_yield@
    &&& new.block_id_generator.last == old.block_id_generator.last
    &&& new.has_just_entered_table == old.has_just_entered_table
    &&& new.stack.entries() == old.stack.entries()
    &&& new.stack.top_leaf == old.stack.top_leaf
    &&& new.stack.item_likes_in_stack == old.stack.item_likes_in_stack
    &&& new.stack.tables_in_stack == old.stack.tables_in_stack
    &&& new.stack.should_reset_state == flag
}

/// One step of the exiting `ex` from `a` to `b` (see `exit_stepped`), with
/// the flag that asks for a reset of the state set where the line changed.
pub open spec fn exited_one_step<TStack: Stack<StackEntry>>(
    a: &ParserInner<TStack>,
    b: &ParserInner<TStack>,
    ils_a: ItemLikesState,
    ils_b: ItemLikesState,
    ex: Exiting,
    state_b: State,
    r: Result<(), Error>,
    line_changed: bool,
) -> bool {
    exists|n: ParserInner<TStack>, ex1: Exiting, res: Result<Option<State>, Error>|
        #[trigger] exit_stepped(a, &n, ils_a, ils_b, ex, ex1, res) && only_flag_set(
            &n,
            b,
            n.stack.should_reset_state || line_changed,
        ) && match res {
            Ok(Some(st)) => r is Ok && state_b == st,
            Ok(None) => r is Ok && state_b == State::Exiting(ex1),
            Err(_) => r is Err,
        }
}

/// Parsing what is `expecting` from `a`, once the flag that asks for a
/// reset is cleared and no spaces are counted, went to `b` (see
/// `parsed_step`), with the flag set where the line changed.
pub open spec fn parsed_after_reset<TStack: Stack<StackEntry>>(
    a: &ParserInner<TStack>,
    b: &ParserInner<TStack>,
    input: Seq<u8>,
    expecting: Expecting,
    ils_a: ItemLikesState,
    ils_b: ItemLikesState,
    state_b: State,
    r: Result<(), Error>,
    line_changed: bool,
) -> bool {
    exists|m: ParserInner<TStack>, n: ParserInner<TStack>|
        #[trigger] only_flag_set(a, &m, false) && m.current_expecting.spaces_before == 0
            && #[trigger] parsed_step(&m, &n, input, expecting, ils_a, ils_b, state_b, r)
            && only_flag_set(&n, b, n.stack.should_reset_state || line_changed)
}

/// One move of the parser from `a` to `b`: the first pending event is
/// handed out, or, with none pending, one step is made (see `stepped`).
pub open spec fn moved<'a, TStack: Stack<StackEntry>>(a: &Parser<'a, TStack>, b: &Parser<'a, TStack>) -> bool {
    ||| {
        &&& a.inner.to_yield@.len() > 0
        &&& b.yielded@ == a.yielded@.push(a.inner.to_yield@[0])
        &&& b.inner.to_yield@ == a.inner.to_yield@.drop_first()
        &&& b.input == a.input
        &&& b.state == a.state
        &&& b.item_likes_state == a.item_likes_state
        &&& b.is_errored == a.is_errored
        &&& b.inner.pos == a.inner.pos
        &&& b.inner.stack == a.inner.stack
        &&& b.inner.block_id_generator.last == a.inner.block_id_generator.last
        &&& b.inner.current_expecting == a.inner.current_expecting
        &&& b.inner.has_just_entered_table == a.inner.has_just_entered_table
    }
    ||| {
        &&& a.inner.to_yield@.len() == 0
        &&& !a.is_errored
        &&& !(a.state is Ended)
        &&& exists|r: Result<(), Error>| #[trigger] stepped(a, b, r)
    }
}

/// Each parser of `run` moves to the next one.
pub open spec fn is_run<'a, TStack: Stack<StackEntry>>(run: Seq<Parser<'a, TStack>>) -> bool {
    forall|i: int| 0 <= i < run.len() - 1 ==> #[trigger] moved(&run[i], &run[i + 1])
}

/// A run that goes on by one more move is a run.
proof fn lemma_run_push<'a, TStack: Stack<StackEntry>>(run: Seq<Parser<'a, TStack>>, c: Parser<'a, TStack>)
    requires
        run.len() > 0,
        is_run(run),
        moved(&run.last(), &c),
    ensures
        is_run(run.push(c)),
{
    let r2 = run.push(c);
    assert forall|i: int| 0 <= i < r2.len() - 1 implies #[trigger] moved(&r2[i], &r2[i + 1]) by {
        if i < run.len() - 1 {
            assert(r2[i] == run[i] && r2[i + 1] == run[i + 1]);
            assert(moved(&run[i], &run[i + 1]));
        } else {
            assert(r2[i] == run.last() && r2[i + 1] == c);
        }
    }
}

/// One step of the parser from `a` to `b`, returning `r`: an exiting goes
/// one step on; otherwise what is expected is parsed, from an item-like
/// opening (with the item-like blocks of the last line to match) on a new
/// line. Once the line has changed, the next step starts anew on it. An
/// error leaves the parser errored.
pub open spec fn stepped<'a, TStack: Stack<StackEntry>>(
    a: &Parser<'a, TStack>,
    b: &Parser<'a, TStack>,
    r: Result<(), Error>,
) -> bool {
    let line_changed = b.inner.pos.current_line.value != a.inner.pos.current_line.value;
    &&& b.input == a.input
    &&& b.yielded == a.yielded
    &&& b.is_errored == (r is Err)
    &&& match a.state {
        State::Exiting(ex) => exited_one_step(
            &a.inner,
            &b.inner,
            a.item_likes_state,
            b.item_likes_state,
            ex,
            b.state,
            r,
            line_changed,
        ),
        State::Expecting(e) => {
            let reset = a.inner.stack.should_reset_state;
            let e1 = if reset {
                Expecting::ItemLikeOpening
            } else {
                e
            };
            let ils1 = if reset {
                if a.inner.stack.item_likes_in_stack > 0 {
                    ItemLikesState::MatchingLastLine(
                        ItemLikesStateMatchingLastLine {
                            item_likes_in_stack_at_last_line: a.inner.stack.item_likes_in_stack,
                            processed_item_likes: 0,
                        },
                    )
                } else {
                    ItemLikesState::ProcessingNew
                }
            } else {
                a.item_likes_state
            };
            parsed_after_reset(&a.inner, &b.inner, a.input@, e1, ils1, b.item_likes_state, b.state, r, line_changed)
        },
        State::Ended => false,
    }
}

/// `mid` is `old` once the `n` spaces at the cursor are skipped (and
/// counted), with the leaf block on top taken off the stack where the
/// content of a leaf block is `expecting`.
pub open spec fn spaces_skipped<TStack: Stack<StackEntry>>(
    old: &ParserInner<TStack>,
    mid: &ParserInner<TStack>,
    n: int,
    expecting: Expecting,
) -> bool {
    &&& mid.pos.cursor == old.pos.cursor + n
    &&& mid.pos.current_line == old.pos.current_line
    &&& mid.current_expecting.spaces_before == n
    &&& mid.to_yield@ == old.to_yield@
    &&& mid.stack.entries() == old.stack.entries()
    &&& mid.stack.tables_in_stack == old.stack.tables_in_stack
    &&& mid.stack.top_leaf == if expecting == Expecting::LeafContent {
        None
    } else {
        old.stack.top_leaf
    }
    &&& mid.block_id_generator == old.block_id_generator
    &&& mid.has_just_entered_table == old.has_just_entered_table
}

/// The step of parsing what is expected at the content that begins at `c`,
/// from `mid` to `new`, from the state expected to `new_state`, and the
/// matching of the item-like blocks of the last line from `old_ils` to
/// `new_ils`: an item-like opening, a braced opening, or the content of the
/// leaf block `top_leaf` (an opening of one where there is none).
pub open spec fn parsed_expected<TStack: Stack<StackEntry>>(
    mid: &ParserInner<TStack>,
    new: &ParserInner<TStack>,
    expecting: Expecting,
    new_state: State,
    old_ils: ItemLikesState,
    new_ils: ItemLikesState,
    top_leaf: Option<TopLeaf>,
    input: Seq<u8>,
    c: int,
    r: Result<(), Error>,
) -> bool {
    match expecting {
        Expecting::ItemLikeOpening => item_like_opened(
            mid,
            new,
            State::Expecting(expecting),
            new_state,
            old_ils,
            new_ils,
            input,
            input[c],
            r,
        ),
        Expecting::BracedOpening => {
            &&& new_ils == old_ils
            &&& braced_opened(mid, new, State::Expecting(expecting), new_state, input, input[c], r)
        },
        Expecting::LeafContent => {
            let expected = State::Expecting(expecting);
            &&& r is Ok
            &&& new_ils == old_ils
            &&& match top_leaf {
                Some(TopLeaf::Paragraph(p)) => paragraph::paragraph_line_step(
                    mid,
                    new,
                    expected,
                    new_state,
                    input,
                    p,
                ),
                Some(TopLeaf::Heading(h)) => heading::heading_line_step(
                    mid,
                    new,
                    expected,
                    new_state,
                    input,
                    h,
                ),
                Some(TopLeaf::CodeBlock(t)) => code_block::parsed_code_block_line(mid, new, input, t)
                    && new_state == expected,
                None => leaf_opened(mid, new, expected, new_state, input),
            }
        },
    }
}

/// From `old`, with the `n` spaces at the cursor skipped, parsing what is
/// `expecting` there went to `new`, to the state `new_state`, and took the
/// matching of the item-like blocks of the last line from `old_ils` to
/// `new_ils`.
pub open spec fn stepped_from<TStack: Stack<StackEntry>>(
    old: &ParserInner<TStack>,
    new: &ParserInner<TStack>,
    n: int,
    expecting: Expecting,
    new_state: State,
    old_ils: ItemLikesState,
    new_ils: ItemLikesState,
    input: Seq<u8>,
    r: Result<(), Error>,
) -> bool {
    exists|mid: ParserInner<TStack>|
        #[trigger] spaces_skipped(old, &mid, n, expecting) && parsed_expected(
            &mid,
            new,
            expecting,
            new_state,
            old_ils,
            new_ils,
            old.stack.top_leaf,
            input,
            old.pos.cursor + n,
            r,
        )
}

/// One step of parsing what is expected went from `old` to `new`, from the
/// expected state to `new_state`, and the matching of the item-like blocks
/// of the last line from `old_ils` to `new_ils`: the spaces at the cursor
/// are skipped; at the end of the input the parsing ends, or exits what is
/// open first; otherwise what is expected is parsed, the content of the leaf
/// block on top where nothing else can come.
pub open spec fn parsed_step<TStack: Stack<StackEntry>>(
    old: &ParserInner<TStack>,
    new: &ParserInner<TStack>,
    input: Seq<u8>,
    expecting: Expecting,
    old_ils: ItemLikesState,
    new_ils: ItemLikesState,
    new_state: State,
    r: Result<(), Error>,
) -> bool {
    let s = input;
    let n = run_len(s, SPACE, old.pos.cursor as int) as int;
    let c = old.pos.cursor + n;
    let top_leaf = old.stack.top_leaf;
    let to_leaf = top_leaf is Some && (expecting == Expecting::BracedOpening || (expecting
        == Expecting::ItemLikeOpening && !old_ils.spec_has_unprocessed()));
    if c >= s.len() {
        &&& r is Ok
        &&& new.to_yield@ == old.to_yield@
        &&& new.pos.cursor == s.len()
        &&& new.pos.current_line == old.pos.current_line
        &&& new.stack.entries() == old.stack.entries()
        &&& new.stack.top_leaf == old.stack.top_leaf
        &&& new.block_id_generator.last == old.block_id_generator.last
        &&& new_ils == old_ils
        &&& new_state == if top_leaf is None && old.stack.entries().len() == 0 {
            State::Ended
        } else {
            State::Exiting(
                Exiting { until: ExitingUntil::StackIsEmpty, and_then: Some(ExitingAndThen::End) },
            )
        }
    } else {
        let effective = if to_leaf {
            Expecting::LeafContent
        } else {
            expecting
        };
        stepped_from(old, new, n, effective, new_state, old_ils, new_ils, s, r)
    }
}

/// The block-level parser: turns the input into a stream of block events.
pub struct Parser<'a, TStack: Stack<StackEntry>> {
    pub input: &'a [u8],
    pub state: State,
    pub inner: ParserInner<TStack>,
    /// Only meaningful while the parser expects item-like openings.
    pub item_likes_state: ItemLikesState,
    pub is_errored: bool,
    /// The events returned so far.
    pub yielded: Ghost<Seq<BlockEvent>>,
}

impl<'a, TStack: Stack<StackEntry>> Parser<'a, TStack> {
    /// The shared state agrees with the input; the events returned and
    /// pending leave open the blocks of the stack; the block ids of the events
    /// returned grow, and their texts come in input order; until an error, an exiting knows what comes after it,
    /// the blocks it is to enter have ids above those queued, and the parsing
    /// ends only at the end of the input, with no block open.
    pub open spec fn wf(&self) -> bool {
        let len = self.input@.len();
        &&& self.inner.wf(len)
        &&& nesting_after(Seq::empty(), self.yielded@ + self.inner.to_yield@) == Some(
            open_ids(&self.inner.stack),
        )
        &&& ids_fresh(self.yielded@, 0, self.inner.block_id_generator.taken@)
        &&& texts_fresh(self.yielded@, 0, self.inner.text_taken@)
        &&& !self.is_errored ==> {
            &&& ids_increasing_within(
                pending_ids(self.state),
                self.inner.block_id_generator.queued@,
                self.inner.block_id_generator.last as int,
            )
            &&& self.state is Exiting ==> is_plain_exiting(self.state) || is_exiting_to_end(
                self.state,
            )
            &&& (self.state is Ended || is_exiting_to_end(self.state)) ==> self.inner.pos.cursor
                == len
            &&& self.state is Ended ==> open_ids(&self.inner.stack) == Seq::<BlockId>::empty()
            &&& pending_lines_ok(self.state, self.inner.pos.current_line.value)
        }
    }

    /// Nothing more is to be yielded.
    pub open spec fn is_finished(&self) -> bool {
        self.is_errored || (self.state is Ended && self.inner.to_yield@.len() == 0)
    }

    /// A parser at the beginning of `input`.
    pub fn new(input: &'a [u8]) -> (r: Self)
        requires
            input@.len() <= usize::MAX / 2,
        ensures
            r.wf(),
            r.input@ == input@,
            r.state == State::Expecting(Expecting::ItemLikeOpening),
            r.inner.pos.cursor == 0,
            r.inner.pos.current_line.value == 1,
            r.inner.to_yield@.len() == 0,
            r.inner.stack.entries() == Seq::<StackEntry>::empty(),
            r.inner.stack.top_leaf is None,
            !r.inner.stack.should_reset_state,
            r.inner.block_id_generator.last == 0,
            r.inner.current_expecting.spaces_before == 0,
            !r.inner.has_just_entered_table,
            r.item_likes_state == ItemLikesState::ProcessingNew,
            !r.is_errored,
            r.yielded@ == Seq::<BlockEvent>::empty(),
    {
        proof {
            assert(Seq::<BlockEvent>::empty() + Seq::<BlockEvent>::empty() =~= Seq::<BlockEvent>::empty());
            assert(entry_ids(Seq::<StackEntry>::empty()) =~= Seq::<BlockId>::empty());
        }
        Parser {
            input,
            state: State::Expecting(Expecting::ItemLikeOpening),
            inner: ParserInner::new(),
            item_likes_state: ItemLikesState::ProcessingNew,
            is_errored: false,
            yielded: Ghost(Seq::empty()),
        }
    }

    /// The next block event, `None` once the input is parsed through, or the
    /// error that stopped the parsing (after which there is nothing more).
    ///
    /// The parser gets from where it was to where it is by a run of moves:
    /// each hands out the first pending event, or makes one exact step.
    pub fn next(&mut self) -> (r: Option<Result<BlockEvent, Error>>)
        requires
            old(self).wf(),
        ensures
            final(self).wf(),
            final(self).input@ == old(self).input@,
            old(self).inner.pos.cursor <= final(self).inner.pos.cursor,
            old(self).is_finished() ==> r is None,
            r is None ==> final(self).is_finished(),
            r is None && !final(self).is_errored ==> final(self).inner.pos.cursor == final(self).input@.len(),
            r matches Some(Ok(ev)) ==> event_within(ev, final(self).input@.len()),
            r matches Some(Ok(ev)) ==> lines_ordered(ev),
            r matches Some(Err(e)) ==> e == Error::OutOfStackSpace
                && final(self).inner.stack.is_full() && final(self).is_errored,
            final(self).is_errored == (old(self).is_errored || r matches Some(Err(_))),
            r matches Some(Ok(ev)) ==> final(self).yielded@ == old(self).yielded@.push(ev),
            !(r matches Some(Ok(_))) ==> final(self).yielded@ == old(self).yielded@,
            nesting_after(Seq::empty(), final(self).yielded@) is Some,
            r is None && !final(self).is_errored ==> nesting_after(
                Seq::empty(),
                final(self).yielded@,
            ) == Some(Seq::<BlockId>::empty()),
            ids_grow(final(self).yielded@),
            texts_in_order(final(self).yielded@),
            exists|run: Seq<Parser<'a, TStack>>|
                run.len() > 0 && run[0] == *old(self) && run.last() == *final(self) && #[trigger] is_run(run),
    {
        proof {
            lemma_nesting_append(Seq::empty(), self.yielded@, self.inner.to_yield@);
        }
        let ghost mut run: Seq<Parser<'a, TStack>> = seq![*self];
        assert(is_run(run));
        if self.is_errored {
            return None;
        }
        loop
            invariant
                self.wf(),
                !self.is_errored,
                !old(self).is_errored,
                self.input@ == old(self).input@,
                old(self).inner.pos.cursor <= self.inner.pos.cursor,
                old(self).is_finished() ==> self.state is Ended && self.inner.to_yield@.len() == 0,
                self.yielded@ == old(self).yielded@,
                run.len() > 0,
                run[0] == *old(self),
                run.last() == *self,
                is_run(run),
            decreases
                (if self.inner.to_yield@.len() > 0 {
                    0int
                } else {
                    1int
                }),
                self.input@.len() - self.inner.pos.cursor,
                state_rank(self.state, self.inner.stack.should_reset_state),
        {
            let ghost prev = *self;
            let ghost to_yield = self.inner.to_yield@;
            let ghost taken = self.inner.block_id_generator.taken@;
            let ghost text_taken = self.inner.text_taken@;
            proof {
                if to_yield.len() > 0 {
                    lemma_ids_fresh_drop_first(to_yield, taken, self.inner.block_id_generator.queued@);
                    lemma_texts_fresh_drop_first(to_yield, text_taken, self.inner.text_queued@);
                }
            }
            if self.inner.has_pending() {
                match self.inner.pop_to_be_yielded() {
                Some(ev) => {
                    proof {
                        assert(seq![to_yield[0]][0] == ev);
                        lemma_ids_fresh_push(self.yielded@, ev, 0, taken, self.inner.block_id_generator.taken@);
                        lemma_texts_fresh_push(self.yielded@, ev, 0, text_taken, self.inner.text_taken@);
                        assert(event_within(to_yield[0], self.input@.len()));
                        assert(lines_ordered(to_yield[0]));
                        assert(self.yielded@.push(ev) + self.inner.to_yield@ =~= self.yielded@
                            + to_yield);
                    }
                    self.yielded = Ghost(self.yielded@.push(ev));
                    proof {
                        lemma_nesting_append(Seq::empty(), self.yielded@, self.inner.to_yield@);
                        assert(moved(&prev, self));
                        lemma_run_push(run, *self);
                        run = run.push(*self);
                    }
                    return Some(Ok(ev));
                },
                None => {},
                }
            }
            match self.state {
                State::Ended => {
                    proof {
                        assert(self.yielded@ + self.inner.to_yield@ =~= self.yielded@);
                    }
                    return None;
                },
                _ => {},
            }
            let ghost before_step = *self;
            let step_result = self.step();
            proof {
                assert(stepped(&before_step, self, step_result));
                assert(moved(&before_step, self));
                lemma_run_push(run, *self);
                run = run.push(*self);
            }
            match step_result {
                Ok(()) => {
                    self.inner.enforce_to_yield_mark();
                },
                Err(e) => {
                    proof {
                        lemma_nesting_append(Seq::empty(), self.yielded@, self.inner.to_yield@);
                    }
                    return Some(Err(e));
                },
            }
        }
    }

    /// Makes one step of the parsing, in the current state.
    fn step(&mut self) -> (r: Result<(), Error>)
        requires
            old(self).wf(),
            !old(self).is_errored,
            old(self).inner.to_yield@.len() == 0,
            !(old(self).state is Ended),
        ensures
            final(self).wf(),
            final(self).input == old(self).input,
            final(self).yielded == old(self).yielded,
            old(self).inner.pos.cursor <= final(self).inner.pos.cursor,
            final(self).inner.to_yield@.len() <= 3,
            r is Ok ==> !final(self).is_errored && (final(self).inner.to_yield@.len() > 0
                || final(self).inner.pos.cursor > old(self).inner.pos.cursor || state_rank(
                final(self).state,
                final(self).inner.stack.should_reset_state,
            ) < state_rank(old(self).state, old(self).inner.stack.should_reset_state)),
            r matches Err(e) ==> e == Error::OutOfStackSpace && final(self).inner.stack.is_full()
                && final(self).is_errored,
            stepped(old(self), final(self), r),
    {
        let ghost len = self.input@.len();
        let ghost mut m = self.inner;
        let ghost mut n = self.inner;
        let ghost mut ex1 = Exiting { until: ExitingUntil::StackIsEmpty, and_then: None };
        let ghost mut res: Result<Option<State>, Error> = Ok(None);
        let line_before = self.inner.pos.current_line.value;
        let mut state = State::Ended;
        std::mem::swap(&mut state, &mut self.state);
        let result = match state {
            State::Ended => Ok(()),
            State::Exiting(exiting) => {
                let mut exiting = exiting;
                let rr = Self::exit(
                    &mut self.inner,
                    &mut self.item_likes_state,
                    &mut exiting,
                    Ghost(len),
                );
                proof {
                    n = self.inner;
                    ex1 = exiting;
                    res = rr;
                }
                match rr {
                    Ok(Some(new_state)) => {
                        self.state = new_state;
                        Ok(())
                    },
                    Ok(None) => {
                        self.state = State::Exiting(exiting);
                        Ok(())
                    },
                    Err(e) => Err(e),
                }
            },
            State::Expecting(expecting) => {
                let mut expecting = expecting;
                if self.inner.stack.should_reset_state() {
                    self.inner.stack.reset_should_reset_state();
                    let item_likes_in_stack_at_last_line = self.inner.stack.item_likes_in_stack();
                    expecting = Expecting::ItemLikeOpening;
                    self.item_likes_state = if item_likes_in_stack_at_last_line > 0 {
                        ItemLikesState::MatchingLastLine(
                            ItemLikesStateMatchingLastLine::new(item_likes_in_stack_at_last_line),
                        )
                    } else {
                        ItemLikesState::ProcessingNew
                    };
                }
                self.state = State::Expecting(expecting);
                self.inner.reset_current_expecting();
                proof {
                    m = self.inner;
                }
                let rr = self.parse(expecting);
                proof {
                    n = self.inner;
                }
                rr
            },
        };
        if self.inner.pos.current_line.value != line_before {
            self.inner.stack.reset_current_line_for_new_line();
        }
        proof {
            assert(old(self).yielded@ + old(self).inner.to_yield@ =~= old(self).yielded@);
            assert(old(self).inner.new_events(&self.inner) =~= self.inner.to_yield@);
            assert(open_ids(&old(self).inner.stack) + seq![] =~= open_ids(&old(self).inner.stack));
            lemma_nesting_append(Seq::empty(), old(self).yielded@, self.inner.to_yield@);
        }
        let out = match result {
            Ok(()) => Ok(()),
            Err(e) => {
                self.is_errored = true;
                Err(e)
            },
        };
        proof {
            let line_changed = self.inner.pos.current_line.value != old(self).inner.pos.current_line.value;
            match old(self).state {
                State::Exiting(ex) => {
                    assert(exit_stepped(
                        &old(self).inner,
                        &n,
                        old(self).item_likes_state,
                        self.item_likes_state,
                        ex,
                        ex1,
                        res,
                    ));
                    assert(only_flag_set(&n, &self.inner, n.stack.should_reset_state || line_changed));
                    assert(exited_one_step(
                        &old(self).inner,
                        &self.inner,
                        old(self).item_likes_state,
                        self.item_likes_state,
                        ex,
                        self.state,
                        out,
                        line_changed,
                    ));
                },
                State::Expecting(e) => {
                    let reset = old(self).inner.stack.should_reset_state;
                    let e1 = if reset {
                        Expecting::ItemLikeOpening
                    } else {
                        e
                    };
                    let ils1 = if reset {
                        if old(self).inner.stack.item_likes_in_stack > 0 {
                            ItemLikesState::MatchingLastLine(
                                ItemLikesStateMatchingLastLine {
                                    item_likes_in_stack_at_last_line: old(self).inner.stack.item_likes_in_stack,
                                    processed_item_likes: 0,
                                },
                            )
                        } else {
                            ItemLikesState::ProcessingNew
                        }
                    } else {
                        old(self).item_likes_state
                    };
                    assert(only_flag_set(&old(self).inner, &m, false));
                    assert(parsed_step(&m, &n, old(self).input@, e1, ils1, self.item_likes_state, self.state, out));
                    assert(only_flag_set(&n, &self.inner, n.stack.should_reset_state || line_changed));
                    assert(parsed_after_reset(
                        &old(self).inner,
                        &self.inner,
                        old(self).input@,
                        e1,
                        ils1,
                        self.item_likes_state,
                        self.state,
                        out,
                        line_changed,
                    ));
                },
                State::Ended => {},
            }
        }
        out
    }

    /// Parses what is expected at the cursor, after the spaces there.
    fn parse(&mut self, expecting: Expecting) -> (r: Result<(), Error>)
        requires
            old(self).wf(),
            !old(self).is_errored,
            old(self).state == State::Expecting(expecting),
            old(self).inner.current_expecting.spaces_before == 0,
            old(self).inner.to_yield@.len() == 0,
        ensures
            final(self).input == old(self).input,
            final(self).is_errored == old(self).is_errored,
            final(self).inner.wf(final(self).input@.len()),
            old(self).inner.pos.cursor <= final(self).inner.pos.cursor,
            final(self).inner.to_yield@.len() <= 3,
            final(self).inner.stack.should_reset_state == old(self).inner.stack.should_reset_state,
            final(self).inner.pos.cursor == old(self).inner.pos.cursor
                ==> final(self).inner.pos.current_line == old(self).inner.pos.current_line,
            final(self).state is Expecting || is_plain_exiting(final(self).state) || (final(self).inner.pos.cursor == final(self).input@.len() && (final(self).state is Ended
                || is_exiting_to_end(final(self).state))),
            final(self).inner.pos.cursor > old(self).inner.pos.cursor || final(self).state is Ended
                || is_exiting_to_end(final(self).state) || (expecting == Expecting::ItemLikeOpening
                && is_plain_exiting(final(self).state)),
            r matches Err(e) ==> e == Error::OutOfStackSpace && final(self).inner.stack.is_full(),
            final(self).yielded == old(self).yielded,
            old(self).inner.nests(&final(self).inner, seq![]),
            pending_lines_ok(final(self).state, final(self).inner.pos.current_line.value),
            final(self).state is Ended ==> open_ids(&final(self).inner.stack) == Seq::<
                BlockId,
            >::empty(),
            final(self).inner.block_id_generator.taken == old(self).inner.block_id_generator.taken,
            final(self).inner.text_taken == old(self).inner.text_taken,
            ids_increasing_within(
                pending_ids(final(self).state),
                final(self).inner.block_id_generator.queued@,
                final(self).inner.block_id_generator.last as int,
            ),
            parsed_step(
                &old(self).inner,
                &final(self).inner,
                old(self).input@,
                expecting,
                old(self).item_likes_state,
                final(self).item_likes_state,
                final(self).state,
                r,
            ),
    {
        let len = self.input.len();
        let cursor = self.inner.cursor();
        let spaces = count_continuous_character(self.input, SPACE, cursor);
        if spaces > 0 {
            self.inner.move_cursor_forward(spaces);
            self.inner.current_expecting.set_spaces_before(spaces);
        }
        let cursor = self.inner.cursor();
        if cursor >= len {
            self.state = if self.inner.stack.is_empty() {
                proof {
                    assert(entry_ids(self.inner.stack.entries()) =~= Seq::<BlockId>::empty());
                }
                State::Ended
            } else {
                State::Exiting(Exiting::new(ExitingUntil::StackIsEmpty, ExitingAndThen::End))
            };
            proof {
                lemma_nests_none(&old(self).inner, &self.inner);
            }
            return Ok(());
        }
        let first_char = self.input[cursor];
        let mut effective = expecting;
        let is_top_leaf_some = self.inner.stack.is_top_leaf_some();
        if is_top_leaf_some && (expecting == Expecting::BracedOpening || (expecting
            == Expecting::ItemLikeOpening
            && !self.item_likes_state.has_unprocessed_item_likes_at_current_line())) {
            effective = Expecting::LeafContent;
            self.state = State::Expecting(Expecting::LeafContent);
        }
        let ghost mut mid = self.inner;
        let r = match effective {
            Expecting::ItemLikeOpening => item_like::parse_opening_and_process(
                self.input,
                &mut self.state,
                &mut self.inner,
                &mut self.item_likes_state,
                first_char,
            ),
            Expecting::BracedOpening => braced::parse_opening_and_process(
                self.input,
                &mut self.state,
                &mut self.inner,
                first_char,
            ),
            Expecting::LeafContent => {
                let ghost before_pop = self.inner.stack.entries();
                match self.inner.stack.pop_top_leaf() {
                    Some(top_leaf) => {
                        proof {
                            assert(entry_ids(before_pop) + seq![leaf_id(top_leaf)] =~= entry_ids(
                                before_pop,
                            ).push(leaf_id(top_leaf)));
                            mid = self.inner;
                        }
                        crate::block::leaf::parse_content_and_process(
                            self.input,
                            &mut self.state,
                            &mut self.inner,
                            top_leaf,
                        )
                    },
                    None => {
                        proof {
                            mid = self.inner;
                        }
                        crate::block::leaf::parse_opening_and_process(
                            self.input,
                            &mut self.state,
                            &mut self.inner,
                            first_char,
                        )
                    },
                }
            },
        };
        proof {
            let n = run_len(self.input@, SPACE, old(self).inner.pos.cursor as int) as int;
            assert(spaces_skipped(&old(self).inner, &mid, n, effective));
            assert(stepped_from(
                &old(self).inner,
                &self.inner,
                n,
                effective,
                self.state,
                old(self).item_likes_state,
                self.item_likes_state,
                old(self).input@,
                r,
            ));
        }
        r
    }

    /// Makes one step of an exiting: exits the leaf block on top, or the top
    /// entry, and once the exiting is done does what comes after it, which
    /// makes the new state.
    fn exit(
        inner: &mut ParserInner<TStack>,
        item_likes_state: &mut ItemLikesState,
        exiting: &mut Exiting,
        Ghost(len): Ghost<nat>,
    ) -> (r: Result<Option<State>, Error>)
        requires
            old(inner).wf(len),
            old(exiting).and_then is Some,
            old(exiting).and_then matches Some(ExitingAndThen::YieldAndExpectBracedOpening(ev))
                ==> is_indicator(ev),
            old(exiting).and_then matches Some(ExitingAndThen::End) ==> old(exiting).until is StackIsEmpty,
            pending_lines_ok(State::Exiting(*old(exiting)), old(inner).pos.current_line.value),
            ids_increasing_within(
                pending_ids(State::Exiting(*old(exiting))),
                old(inner).block_id_generator.queued@,
                old(inner).block_id_generator.last as int,
            ),
        ensures
            old(inner).steps_to(final(inner), len, 3),
            final(inner).pos == old(inner).pos,
            old(inner).nests(final(inner), seq![]),
            r matches Ok(None) ==> final(inner).to_yield@.len() > old(inner).to_yield@.len()
                && *final(exiting) == *old(exiting)
                && final(inner).block_id_generator == old(inner).block_id_generator,
            r matches Ok(Some(s)) ==> (s is Ended && open_ids(&final(inner).stack) == Seq::<
                BlockId,
            >::empty() && old(exiting).and_then matches Some(ExitingAndThen::End)) || (s is Expecting
                && !(old(exiting).and_then matches Some(ExitingAndThen::End)) && (
            final(inner).to_yield@.len() > old(inner).to_yield@.len() || s == State::Expecting(
                Expecting::BracedOpening,
            ))),
            r matches Err(e) ==> e == Error::OutOfStackSpace && final(inner).stack.is_full(),
            exit_stepped(
                old(inner),
                final(inner),
                *old(item_likes_state),
                *final(item_likes_state),
                *old(exiting),
                *final(exiting),
                r,
            ),
    {
        let ghost o0 = open_ids(&old(inner).stack);
        let ghost y0 = old(inner).to_yield@;
        let ghost mut evs: Seq<BlockEvent> = seq![];
        proof {
            assert(inner.to_yield@ =~= y0 + evs);
            assert(o0 + seq![] =~= o0);
        }
        match inner.stack.pop_top_leaf() {
            Some(top_leaf) => {
                let ghost line = inner.pos.current_line;
                let ghost entries = inner.stack.entries();
                proof {
                    assert(o0.drop_last() =~= entry_ids(entries));
                }
                match top_leaf {
                    TopLeaf::Paragraph(top_leaf) => {
                        paragraph::exit(inner, top_leaf);
                        proof {
                            lemma_nesting_extend(o0, evs, o0, spec_exit_event(top_leaf.meta, line), entry_ids(entries));
                            evs = evs.push(spec_exit_event(top_leaf.meta, line));
                        }
                    },
                    TopLeaf::Heading(top_leaf) => {
                        heading::exit(inner, top_leaf);
                        proof {
                            lemma_nesting_extend(o0, evs, o0, spec_exit_event(top_leaf.meta, line), entry_ids(entries));
                            evs = evs.push(spec_exit_event(top_leaf.meta, line));
                        }
                    },
                    TopLeaf::CodeBlock(top_leaf) => {
                        code_block::exit(inner, top_leaf);
                        proof {
                            if top_leaf.state is InInfoString {
                                lemma_nesting_extend(o0, evs, o0, BlockEvent::IndicateCodeBlockCode, o0);
                                evs = evs.push(BlockEvent::IndicateCodeBlockCode);
                            }
                            lemma_nesting_extend(o0, evs, o0, spec_exit_event(top_leaf.meta, line), entry_ids(entries));
                            evs = evs.push(spec_exit_event(top_leaf.meta, line));
                        }
                    },
                }
                proof {
                    assert(inner.to_yield@ =~= y0 + evs);
                    lemma_new_events(old(inner), inner, evs);
                    assert(evs =~= leaf_exit_events(old(inner).stack.top_leaf->0, line));
                }
                return Ok(None);
            },
            None => {},
        }
        let mut to_be_yielded_based_on_context: Option<BlockEvent> = None;
        let (is_done, should_exit_top) = match exiting.until {
            ExitingUntil::OnlyNItemLikesRemain {
                n,
                should_also_exit_containee_in_last_container,
            } => {
                let mut is_done = inner.stack.item_likes_in_stack() == n;
                if should_also_exit_containee_in_last_container {
                    is_done = is_done && inner.stack.top_is_item_like_container();
                }
                (is_done, !is_done)
            },
            ExitingUntil::TopIsTable { should_also_exit_table } => {
                let is_done = inner.stack.top_is_table();
                (is_done, !is_done || should_also_exit_table)
            },
            ExitingUntil::TopIsAwareOfDoublePipes => {
                if inner.stack.top_is_table() {
                    to_be_yielded_based_on_context = Some(BlockEvent::IndicateTableDataCell);
                    (true, false)
                } else {
                    (false, true)
                }
            },
            ExitingUntil::StackIsEmpty => {
                let is_done = inner.stack.is_empty();
                (is_done, !is_done)
            },
        };
        // With nothing left to exit, the exiting is done.
        let (is_done, should_exit_top) = if inner.stack.as_slice().len() == 0 {
            (true, false)
        } else {
            (is_done, should_exit_top)
        };
        if should_exit_top {
            let ghost entries = inner.stack.entries();
            let ghost line = inner.pos.current_line;
            proof {
                lemma_entry_ids_drop_last(entries);
            }
            match inner.stack.pop() {
                Some(StackEntry::ItemLike(stack_entry)) => {
                    let _ = item_like::exit(inner, stack_entry);
                    proof {
                        lemma_nesting_extend(o0, evs, o0, spec_exit_event(stack_entry.meta, line), entry_ids(entries.drop_last()));
                        evs = evs.push(spec_exit_event(stack_entry.meta, line));
                    }
                },
                Some(StackEntry::ItemLikeContainer(stack_entry)) => {
                    let _ = item_like::exit_container(inner, stack_entry);
                    proof {
                        lemma_nesting_extend(o0, evs, o0, spec_exit_event(stack_entry.meta, line), entry_ids(entries.drop_last()));
                        evs = evs.push(spec_exit_event(stack_entry.meta, line));
                    }
                },
                Some(StackEntry::Table(stack_entry)) => {
                    let _ = table::exit(inner, stack_entry);
                    proof {
                        lemma_nesting_extend(o0, evs, o0, spec_exit_event(stack_entry.meta, line), entry_ids(entries.drop_last()));
                        evs = evs.push(spec_exit_event(stack_entry.meta, line));
                    }
                },
                None => {},
            }
        }
        proof {
            assert(inner.to_yield@ =~= y0 + evs);
            lemma_new_events(old(inner), inner, evs);
        }
        if !is_done {
            return Ok(None);
        }
        proof {
            if exiting.until is StackIsEmpty {
                assert(entry_ids(inner.stack.entries()) =~= Seq::<BlockId>::empty());
            }
        }
        let ghost mid = *inner;
        match exiting.and_then.take() {
            Some(and_then) => {
                let r = Self::after_exiting(
                    inner,
                    item_likes_state,
                    and_then,
                    to_be_yielded_based_on_context,
                    Ghost(len),
                );
                proof {
                    lemma_nests_trans(old(inner), &mid, inner);
                }
                match r {
                    Ok(s) => Ok(Some(s)),
                    Err(e) => Err(e),
                }
            },
            None => Ok(Some(State::Ended)),
        }
    }

    /// Does what comes after an exiting that is done, which makes the new
    /// state.
    fn after_exiting(
        inner: &mut ParserInner<TStack>,
        item_likes_state: &mut ItemLikesState,
        and_then: ExitingAndThen,
        to_be_yielded_based_on_context: Option<BlockEvent>,
        Ghost(len): Ghost<nat>,
    ) -> (r: Result<State, Error>)
        requires
            old(inner).wf(len),
            old(inner).stack.top_leaf is None,
            and_then matches ExitingAndThen::YieldAndExpectBracedOpening(ev) ==> is_indicator(ev),
            pending_lines_ok(
                State::Exiting(Exiting { until: ExitingUntil::StackIsEmpty, and_then: Some(and_then) }),
                old(inner).pos.current_line.value,
            ),
            ids_increasing_within(
                pending_ids(
                    State::Exiting(
                        Exiting { until: ExitingUntil::StackIsEmpty, and_then: Some(and_then) },
                    ),
                ),
                old(inner).block_id_generator.queued@,
                old(inner).block_id_generator.last as int,
            ),
            to_be_yielded_based_on_context matches Some(ev) ==> ev is IndicateTableDataCell,
            and_then is End ==> open_ids(&old(inner).stack) == Seq::<BlockId>::empty(),
        ensures
            old(inner).steps_to(final(inner), len, 2),
            final(inner).pos == old(inner).pos,
            old(inner).nests(final(inner), seq![]),
            r matches Ok(s) ==> (s is Ended && and_then is End && open_ids(&final(inner).stack)
                == Seq::<BlockId>::empty()) || (s is Expecting && !(and_then is End) && (final(inner).to_yield@.len() > old(inner).to_yield@.len() || s == State::Expecting(
                Expecting::BracedOpening,
            ))),
            r matches Err(e) ==> e == Error::OutOfStackSpace && final(inner).stack.is_full(),
            final(inner).stack.top_leaf == old(inner).stack.top_leaf,
            after_exited(
                old(inner).stack.entries(),
                old(inner).to_yield@,
                final(inner),
                *old(item_likes_state),
                *final(item_likes_state),
                and_then,
                to_be_yielded_based_on_context,
                r,
            ),
    {
        let ghost o0 = open_ids(&old(inner).stack);
        let ghost y0 = old(inner).to_yield@;
        let ghost mut evs: Seq<BlockEvent> = seq![];
        proof {
            assert(inner.to_yield@ =~= y0 + evs);
            assert(o0 + seq![] =~= o0);
            lemma_new_events(old(inner), inner, evs);
        }
        match and_then {
            ExitingAndThen::EnterItemLikeAndExpectItemLike { container, item_like } => {
                proof {
                    let ids = pending_ids(
                        State::Exiting(Exiting { until: ExitingUntil::StackIsEmpty, and_then: Some(and_then) }),
                    );
                    match container {
                        Some(c) => {
                            assert(ids[0] == c.meta.id.value && ids[1] == item_like.meta.id.value);
                            assert(ids[0] < ids[1]);
                        },
                        None => {
                            assert(ids[0] == item_like.meta.id.value);
                        },
                    }
                }
                match container {
                    Some(container) => {
                        let ev = container.make_enter_event();
                        proof {
                            assert(text_range(ev) is None);
                            lemma_entry_ids_push(inner.stack.entries(), StackEntry::ItemLikeContainer(container));
                        }
                        match inner.stack.push_item_like_container(container) {
                            Ok(()) => {},
                            Err(e) => {
                                return Err(e);
                            },
                        }
                        inner.yield_event(ev);
                        proof {
                            lemma_nesting_extend(o0, evs, o0, ev, open_ids(&inner.stack));
                            evs = evs.push(ev);
                            assert(inner.to_yield@ =~= y0 + evs);
                            lemma_new_events(old(inner), inner, evs);
                        }
                    },
                    None => {},
                }
                let ev = item_like.make_enter_event();
                let ghost before = open_ids(&inner.stack);
                proof {
                    assert(text_range(ev) is None);
                    lemma_entry_ids_push(inner.stack.entries(), StackEntry::ItemLike(item_like));
                }
                let ghost entries_before = inner.stack.entries();
                proof {
                    let first: Seq<StackEntry> = match container {
                        Some(c) => seq![StackEntry::ItemLikeContainer(c)],
                        None => seq![],
                    };
                    let first_events: Seq<BlockEvent> = match container {
                        Some(c) => seq![c.spec_enter_event()],
                        None => seq![],
                    };
                    assert(entries_before =~= old(inner).stack.entries() + first);
                    assert(inner.to_yield@ =~= old(inner).to_yield@ + first_events);
                }
                match inner.stack.push_item_like(item_like) {
                    Ok(()) => {},
                    Err(e) => {
                        return Err(e);
                    },
                }
                inner.yield_event(ev);
                proof {
                    lemma_nesting_extend(o0, evs, before, ev, open_ids(&inner.stack));
                    evs = evs.push(ev);
                    assert(inner.to_yield@ =~= y0 + evs);
                    lemma_new_events(old(inner), inner, evs);
                    let first: Seq<StackEntry> = match container {
                        Some(c) => seq![StackEntry::ItemLikeContainer(c)],
                        None => seq![],
                    };
                    let first_events: Seq<BlockEvent> = match container {
                        Some(c) => seq![c.spec_enter_event()],
                        None => seq![],
                    };
                    assert(inner.stack.entries() =~= old(inner).stack.entries() + first + seq![
                        StackEntry::ItemLike(item_like),
                    ]);
                    assert(inner.to_yield@ =~= old(inner).to_yield@ + first_events + seq![
                        item_like.spec_enter_event(),
                    ]);
                }
                *item_likes_state = ItemLikesState::ProcessingNew;
                Ok(State::Expecting(Expecting::ItemLikeOpening))
            },
            ExitingAndThen::ExpectBracedOpening => Ok(State::Expecting(Expecting::BracedOpening)),
            ExitingAndThen::YieldAndExpectBracedOpening(ev) => {
                inner.yield_event(ev);
                proof {
                    lemma_nesting_extend(o0, evs, o0, ev, o0);
                    evs = evs.push(ev);
                    assert(inner.to_yield@ =~= y0 + evs);
                    lemma_new_events(old(inner), inner, evs);
                }
                Ok(State::Expecting(Expecting::BracedOpening))
            },
            ExitingAndThen::YieldBasedOnContextAndExpectBracedOpening => {
                match to_be_yielded_based_on_context {
                    Some(ev) => {
                        inner.yield_event(ev);
                        proof {
                            lemma_nesting_extend(o0, evs, o0, ev, o0);
                            evs = evs.push(ev);
                            assert(inner.to_yield@ =~= y0 + evs);
                            lemma_new_events(old(inner), inner, evs);
                        }
                    },
                    None => {},
                }
                Ok(State::Expecting(Expecting::BracedOpening))
            },
            ExitingAndThen::End => Ok(State::Ended),
        }
    }
}

} // verus!
