use vstd::prelude::*;

use std::collections::VecDeque;

use crate::block::nesting::{
    block_id_of, entry_line, first_id_or, first_text_end_or, ids_fresh, leaf_line,
    lemma_ids_fresh_drop_first, lemma_ids_fresh_push, lemma_nesting_append, lemma_nesting_push,
    lemma_texts_fresh_drop_first, lemma_texts_fresh_push, nesting_after, nesting_step, open_ids,
    text_range, texts_fresh,
};
use crate::block::stack_wrapper::{StackEntry, StackWrapper, TopLeaf};
use crate::block::types::{ctx_fits, CursorContext, YieldContext};
use crate::block::utils::{block_id_popped, BlockIdGenerator, InputCursor};
use crate::events::{range_within, BlockEvent};
use crate::types::{BlockId, LineNumber};
use crate::utils::stack::Stack;

verus! {

/// The most events that one parsing step may leave to be yielded.
pub const MAX_TO_YIELD: usize = 5;

/// An exit event ends on a line no earlier than its block began.
pub open spec fn lines_ordered(ev: BlockEvent) -> bool {
    ev matches BlockEvent::ExitBlock(x) ==> x.start_line.value <= x.end_line.value
}

/// Every range of the input that the event carries lies within an input of
/// length `len`.
pub open spec fn event_within(ev: BlockEvent, len: nat) -> bool {
    match ev {
        BlockEvent::Unparsed(r) => range_within(r, len),
        BlockEvent::Text(r) => range_within(r, len),
        BlockEvent::VerbatimEscaping(v) => range_within(v.content, len),
        _ => true,
    }
}

/// The state that the parsing steps share.
pub struct ParserInner<TStack: Stack<StackEntry>> {
    pub pos: InputCursor,
    pub stack: StackWrapper<TStack>,
    /// The events to be yielded, first in first out.
    pub to_yield: VecDeque<BlockEvent>,
    pub block_id_generator: BlockIdGenerator,
    /// Data that is only meaningful while the parser expects something.
    pub current_expecting: CurrentExpecting,
    pub has_just_entered_table: bool,
    /// Where the text of the last event queued that carries text ends (0 if
    /// none).
    pub text_queued: Ghost<int>,
    /// Where the text of the last event taken from the queue that carries
    /// text ends (0 if none).
    pub text_taken: Ghost<int>,
}

impl<TStack: Stack<StackEntry>> ParserInner<TStack> {
    /// The cursor lies within an input of length `len`, the counters of the
    /// stack agree with it, and there are ids left for the blocks to come.
    pub open spec fn wf(&self, len: nat) -> bool {
        &&& ctx_fits(&self.pos, len as int)
        &&& self.stack.wf()
        &&& self.block_id_generator.last <= 2 * self.pos.cursor
        &&& len <= usize::MAX / 2
        &&& self.current_expecting.spaces_before <= self.pos.cursor
        &&& self.stack.top_leaf matches Some(TopLeaf::Heading(h)) ==> 1 <= h.level <= 6
        &&& forall|i: int|
            0 <= i < self.to_yield@.len() ==> event_within(#[trigger] self.to_yield@[i], len)
                && lines_ordered(self.to_yield@[i])
        &&& forall|i: int|
            0 <= i < self.stack.entries().len() ==> entry_line(
                #[trigger] self.stack.entries()[i],
            ).value <= self.pos.current_line.value
        &&& self.stack.top_leaf matches Some(l) ==> leaf_line(l).value
            <= self.pos.current_line.value
        &&& 0 <= self.block_id_generator.taken@ <= self.block_id_generator.queued@
            <= self.block_id_generator.last
        &&& ids_fresh(
            self.to_yield@,
            self.block_id_generator.taken@,
            self.block_id_generator.queued@,
        )
        &&& 0 <= self.text_taken@ <= self.text_queued@ <= self.pos.cursor
        &&& texts_fresh(self.to_yield@, self.text_taken@, self.text_queued@)
    }

    /// Going from `self` to `new` over an input of length `len` keeps the
    /// invariant, moves the cursor only forward, appends at most `k` events to
    /// the pending ones, and keeps what the current expecting holds and the
    /// flag of a new line.
    pub open spec fn steps_to(&self, new: &Self, len: nat, k: nat) -> bool {
        &&& new.wf(len)
        &&& self.pos.cursor <= new.pos.cursor
        &&& self.pos.current_line.value <= new.pos.current_line.value
        &&& self.to_yield@.len() <= new.to_yield@.len() <= self.to_yield@.len() + k
        &&& forall|i: int|
            0 <= i < self.to_yield@.len() ==> #[trigger] new.to_yield@[i] == self.to_yield@[i]
        &&& new.current_expecting == self.current_expecting
        &&& new.stack.should_reset_state == self.stack.should_reset_state
        &&& new.block_id_generator.taken == self.block_id_generator.taken
        &&& new.text_taken == self.text_taken
    }

    /// Going from `self` to `new` only appends `ev` to the pending events.
    pub open spec fn yields(&self, new: &Self, ev: BlockEvent) -> bool {
        &&& new.to_yield@ == self.to_yield@.push(ev)
        &&& new.pos == self.pos
        &&& new.stack == self.stack
        &&& new.block_id_generator == self.block_id_generator
        &&& new.current_expecting == self.current_expecting
        &&& new.text_taken == self.text_taken
        &&& new.text_queued@ == match text_range(ev) {
            Some(r) => r.end as int,
            None => self.text_queued@,
        }
    }

    /// The events appended going from `self` to `new`.
    pub open spec fn new_events(&self, new: &Self) -> Seq<BlockEvent> {
        new.to_yield@.subrange(self.to_yield@.len() as int, new.to_yield@.len() as int)
    }

    /// The events appended going from `self` to `new` exit and enter blocks
    /// as the stack changed: with the blocks of `self` open, and those of
    /// `extra` (taken off the stack already) inside them, they leave the
    /// blocks of `new` open.
    pub open spec fn nests(&self, new: &Self, extra: Seq<BlockId>) -> bool {
        nesting_after(open_ids(&self.stack) + extra, self.new_events(new)) == Some(
            open_ids(&new.stack),
        )
    }


    /// Ids are left for `n` more blocks at the current cursor.
    pub open spec fn has_ids_for(&self, n: nat) -> bool {
        self.block_id_generator.last + n <= 2 * self.pos.cursor
    }

    pub fn new() -> (r: Self)
        ensures
            r.pos.cursor == 0,
            r.pos.current_line.value == 1,
            r.stack.wf(),
            r.stack.entries() == Seq::<StackEntry>::empty(),
            r.stack.top_leaf is None,
            !r.stack.should_reset_state,
            r.to_yield@ == Seq::<BlockEvent>::empty(),
            r.block_id_generator.last == 0,
            r.block_id_generator.queued@ == 0,
            r.block_id_generator.taken@ == 0,
            r.current_expecting.spaces_before == 0,
            !r.has_just_entered_table,
            r.text_queued@ == 0,
            r.text_taken@ == 0,
    {
        ParserInner {
            pos: InputCursor::new(),
            stack: StackWrapper::new(),
            to_yield: VecDeque::new(),
            block_id_generator: BlockIdGenerator::new(),
            current_expecting: CurrentExpecting::new(),
            has_just_entered_table: false,
            text_queued: Ghost(0),
            text_taken: Ghost(0),
        }
    }

    /// Checks, as a precondition, that no more events are pending than one
    /// step may leave behind.
    pub fn enforce_to_yield_mark(&self)
        requires
            self.to_yield@.len() <= MAX_TO_YIELD,
    {
    }

    /// Whether some event is pending.
    pub fn has_pending(&self) -> (r: bool)
        ensures
            r == (self.to_yield@.len() > 0),
    {
        self.to_yield.len() > 0
    }

    /// Takes the first pending event.
    pub fn pop_to_be_yielded(&mut self) -> (r: Option<BlockEvent>)
        ensures
            old(self).to_yield@.len() == 0 ==> r is None && final(self).to_yield@ == old(
                self,
            ).to_yield@,
            old(self).to_yield@.len() > 0 ==> r == Some(old(self).to_yield@[0])
                && final(self).to_yield@ == old(self).to_yield@.drop_first(),
            final(self).pos == old(self).pos,
            final(self).stack == old(self).stack,
            final(self).block_id_generator.last == old(self).block_id_generator.last,
            final(self).block_id_generator.queued == old(self).block_id_generator.queued,
            old(self).to_yield@.len() == 0 ==> final(self).block_id_generator.taken == old(
                self,
            ).block_id_generator.taken,
            old(self).to_yield@.len() > 0 ==> final(self).block_id_generator.taken@ == first_id_or(
                old(self).to_yield@,
                old(self).block_id_generator.taken@,
            ),
            final(self).current_expecting == old(self).current_expecting,
            final(self).has_just_entered_table == old(self).has_just_entered_table,
            final(self).text_queued == old(self).text_queued,
            old(self).to_yield@.len() == 0 ==> final(self).text_taken == old(self).text_taken,
            old(self).to_yield@.len() > 0 ==> final(self).text_taken@ == first_text_end_or(
                old(self).to_yield@,
                old(self).text_taken@,
            ),
            forall|len: nat| old(self).wf(len) ==> #[trigger] final(self).wf(len),
    {
        let r = self.to_yield.pop_front();
        if r.is_some() {
            self.block_id_generator.taken = Ghost(
                first_id_or(old(self).to_yield@, old(self).block_id_generator.taken@),
            );
            self.text_taken = Ghost(first_text_end_or(old(self).to_yield@, old(self).text_taken@));
        }
        proof {
            assert forall|len: nat| old(self).wf(len) implies self.wf(len) by {
                assert forall|i: int| 0 <= i < self.to_yield@.len() implies event_within(
                    #[trigger] self.to_yield@[i],
                    len,
                ) && lines_ordered(self.to_yield@[i]) by {
                    assert(self.to_yield@[i] == old(self).to_yield@[i + 1]);
                }
                if old(self).to_yield@.len() > 0 {
                    lemma_ids_fresh_drop_first(
                        old(self).to_yield@,
                        old(self).block_id_generator.taken@,
                        old(self).block_id_generator.queued@,
                    );
                    lemma_texts_fresh_drop_first(
                        old(self).to_yield@,
                        old(self).text_taken@,
                        old(self).text_queued@,
                    );
                    assert(self.to_yield@ =~= old(self).to_yield@.drop_first());
                }
            }
        }
        r
    }

    /// Hands out the id for the next block.
    pub fn pop_block_id(&mut self) -> (r: BlockId)
        requires
            old(self).block_id_generator.last < usize::MAX,
        ensures
            final(self).block_id_generator.last == old(self).block_id_generator.last + 1,
            final(self).block_id_generator.queued == old(self).block_id_generator.queued,
            final(self).block_id_generator.taken == old(self).block_id_generator.taken,
            r.value == final(self).block_id_generator.last,
            block_id_popped(old(self).block_id_generator, final(self).block_id_generator, r),
            final(self).text_queued == old(self).text_queued,
            final(self).text_taken == old(self).text_taken,
            final(self).pos == old(self).pos,
            final(self).stack == old(self).stack,
            final(self).to_yield == old(self).to_yield,
            final(self).current_expecting == old(self).current_expecting,
            final(self).has_just_entered_table == old(self).has_just_entered_table,
    {
        self.block_id_generator.pop()
    }

    pub fn reset_current_expecting(&mut self)
        ensures
            final(self).current_expecting.spaces_before == 0,
            final(self).text_queued == old(self).text_queued,
            final(self).text_taken == old(self).text_taken,
            final(self).pos == old(self).pos,
            final(self).stack == old(self).stack,
            final(self).to_yield == old(self).to_yield,
            final(self).block_id_generator == old(self).block_id_generator,
            final(self).has_just_entered_table == old(self).has_just_entered_table,
    {
        self.current_expecting = CurrentExpecting::new();
    }

    /// The last event yielded entered a table.
    pub fn has_just_entered_table(&self) -> (r: bool)
        ensures
            r == self.has_just_entered_table,
    {
        self.has_just_entered_table
    }

    pub fn cursor(&self) -> (r: usize)
        ensures
            r == self.pos.cursor,
    {
        self.pos.cursor
    }

    pub fn move_cursor_forward(&mut self, n: usize)
        requires
            old(self).pos.cursor + n <= usize::MAX,
        ensures
            final(self).pos.cursor == old(self).pos.cursor + n,
            final(self).pos.current_line == old(self).pos.current_line,
            final(self).text_queued == old(self).text_queued,
            final(self).text_taken == old(self).text_taken,
            final(self).stack == old(self).stack,
            final(self).to_yield == old(self).to_yield,
            final(self).block_id_generator == old(self).block_id_generator,
            final(self).current_expecting == old(self).current_expecting,
            final(self).has_just_entered_table == old(self).has_just_entered_table,
    {
        self.pos.cursor = self.pos.cursor + n;
    }

    pub fn current_line(&self) -> (r: LineNumber)
        ensures
            r == self.pos.current_line,
    {
        self.pos.current_line
    }

    /// Queues an event to be yielded.
    pub fn yield_event(&mut self, ev: BlockEvent)
        ensures
            final(self).to_yield@ == old(self).to_yield@.push(ev),
            final(self).has_just_entered_table == (ev is EnterTable),
            final(self).pos == old(self).pos,
            final(self).stack == old(self).stack,
            final(self).block_id_generator.last == old(self).block_id_generator.last,
            final(self).block_id_generator.taken == old(self).block_id_generator.taken,
            block_id_of(ev) is None ==> final(self).block_id_generator == old(
                self,
            ).block_id_generator,
            block_id_of(ev) matches Some(id) ==> final(self).block_id_generator.queued@
                == id.value,
            final(self).current_expecting == old(self).current_expecting,
            final(self).text_taken == old(self).text_taken,
            text_range(ev) is None ==> final(self).text_queued == old(self).text_queued,
            text_range(ev) matches Some(r) ==> final(self).text_queued@ == r.end,
            forall|len: nat|
                old(self).wf(len) && event_within(ev, len) && lines_ordered(ev) && (block_id_of(
                    ev,
                ) matches Some(id) ==> old(self).block_id_generator.queued@ < id.value
                    <= old(self).block_id_generator.last) && (text_range(ev) matches Some(r)
                    ==> old(self).text_queued@ <= r.start && r.end <= old(self).pos.cursor)
                    ==> #[trigger] final(self).wf(len),
    {
        self.has_just_entered_table = match ev {
            BlockEvent::EnterTable(_) => true,
            _ => false,
        };
        self.to_yield.push_back(ev);
        let ghost queued = match block_id_of(ev) {
            Some(id) => id.value as int,
            None => old(self).block_id_generator.queued@,
        };
        self.block_id_generator.queued = Ghost(queued);
        let ghost text_queued = match text_range(ev) {
            Some(r) => r.end as int,
            None => old(self).text_queued@,
        };
        self.text_queued = Ghost(text_queued);
        proof {
            assert forall|len: nat|
                old(self).wf(len) && event_within(ev, len) && lines_ordered(ev) && (block_id_of(
                    ev,
                ) matches Some(id) ==> old(self).block_id_generator.queued@ < id.value
                    <= old(self).block_id_generator.last) && (text_range(ev) matches Some(r)
                    ==> old(self).text_queued@ <= r.start && r.end <= old(self).pos.cursor)
                    implies self.wf(len) by {
                lemma_texts_fresh_push(
                    old(self).to_yield@,
                    ev,
                    old(self).text_taken@,
                    old(self).text_queued@,
                    text_queued,
                );
                lemma_ids_fresh_push(
                    old(self).to_yield@,
                    ev,
                    old(self).block_id_generator.taken@,
                    old(self).block_id_generator.queued@,
                    queued,
                );
                assert forall|i: int| 0 <= i < self.to_yield@.len() implies event_within(
                    #[trigger] self.to_yield@[i],
                    len,
                ) && lines_ordered(self.to_yield@[i]) by {
                    if i < old(self).to_yield@.len() {
                        assert(self.to_yield@[i] == old(self).to_yield@[i]);
                    }
                }
            }
        }
    }
}

/// The events appended are the difference of the pending events.
pub proof fn lemma_new_events<TStack: Stack<StackEntry>>(
    old: &ParserInner<TStack>,
    new: &ParserInner<TStack>,
    evs: Seq<BlockEvent>,
)
    requires
        new.to_yield@ == old.to_yield@ + evs,
    ensures
        old.new_events(new) == evs,
{
    assert(new.to_yield@.subrange(old.to_yield@.len() as int, new.to_yield@.len() as int) =~= evs);
}

/// One event appended, which changes the open blocks as the stack changed.
pub proof fn lemma_nests_one<TStack: Stack<StackEntry>>(
    old: &ParserInner<TStack>,
    new: &ParserInner<TStack>,
    ev: BlockEvent,
    extra: Seq<BlockId>,
)
    requires
        new.to_yield@ == old.to_yield@.push(ev),
        nesting_step(open_ids(&old.stack) + extra, ev) == Some(open_ids(&new.stack)),
    ensures
        old.nests(new, extra),
{
    assert(new.to_yield@ =~= old.to_yield@ + seq![ev]);
    lemma_new_events(old, new, seq![ev]);
    lemma_nesting_push(open_ids(&old.stack) + extra, Seq::empty(), ev);
    assert(Seq::<BlockEvent>::empty().push(ev) =~= seq![ev]);
}


/// Two events appended, which change the open blocks as the stack changed.
pub proof fn lemma_nests_two<TStack: Stack<StackEntry>>(
    old: &ParserInner<TStack>,
    new: &ParserInner<TStack>,
    e1: BlockEvent,
    mid: Seq<BlockId>,
    e2: BlockEvent,
    extra: Seq<BlockId>,
)
    requires
        new.to_yield@ == old.to_yield@.push(e1).push(e2),
        nesting_step(open_ids(&old.stack) + extra, e1) == Some(mid),
        nesting_step(mid, e2) == Some(open_ids(&new.stack)),
    ensures
        old.nests(new, extra),
{
    assert(new.to_yield@ =~= old.to_yield@ + seq![e1, e2]);
    lemma_new_events(old, new, seq![e1, e2]);
    let o = open_ids(&old.stack) + extra;
    lemma_nesting_push(o, Seq::empty(), e1);
    assert(Seq::<BlockEvent>::empty().push(e1) =~= seq![e1]);
    lemma_nesting_push(o, seq![e1], e2);
    assert(seq![e1].push(e2) =~= seq![e1, e2]);
}

/// Two steps that each change the open blocks as the stack changed make one
/// that does.
pub proof fn lemma_nests_trans<TStack: Stack<StackEntry>>(
    a: &ParserInner<TStack>,
    b: &ParserInner<TStack>,
    c: &ParserInner<TStack>,
)
    requires
        a.nests(b, seq![]),
        b.nests(c, seq![]),
        a.to_yield@.len() <= b.to_yield@.len() <= c.to_yield@.len(),
        forall|i: int| 0 <= i < a.to_yield@.len() ==> #[trigger] b.to_yield@[i] == a.to_yield@[i],
        forall|i: int| 0 <= i < b.to_yield@.len() ==> #[trigger] c.to_yield@[i] == b.to_yield@[i],
    ensures
        a.nests(c, seq![]),
{
    let oa = open_ids(&a.stack);
    let ob = open_ids(&b.stack);
    assert(oa + seq![] =~= oa);
    assert(ob + seq![] =~= ob);
    assert(a.new_events(c) =~= a.new_events(b) + b.new_events(c));
    lemma_nesting_append(oa, a.new_events(b), b.new_events(c));
}

/// No event appended, and the open blocks unchanged.
pub proof fn lemma_nests_none<TStack: Stack<StackEntry>>(
    old: &ParserInner<TStack>,
    new: &ParserInner<TStack>,
)
    requires
        new.to_yield@ == old.to_yield@,
        open_ids(&new.stack) == open_ids(&old.stack),
    ensures
        old.nests(new, seq![]),
{
    assert(new.to_yield@ =~= old.to_yield@ + seq![]);
    lemma_new_events(old, new, seq![]);
    assert(open_ids(&old.stack) + seq![] =~= open_ids(&old.stack));
}

impl<TStack: Stack<StackEntry>> YieldContext for ParserInner<TStack> {
    open spec fn spec_to_yield(&self) -> Seq<BlockEvent> {
        self.to_yield@
    }

    fn yield_event(&mut self, ev: BlockEvent) {
        self.has_just_entered_table = match ev {
            BlockEvent::EnterTable(_) => true,
            _ => false,
        };
        self.to_yield.push_back(ev);
    }
}

/// Data that is only meaningful while the parser expects something.
#[derive(Clone, Copy, PartialEq, Eq)]
pub struct CurrentExpecting {
    pub spaces_before: usize,
}

impl CurrentExpecting {
    pub fn new() -> (r: Self)
        ensures
            r.spaces_before == 0,
    {
        CurrentExpecting { spaces_before: 0 }
    }

    /// The number of spaces consumed right before the cursor.
    pub fn spaces_before(&self) -> (r: usize)
        ensures
            r == self.spaces_before,
    {
        self.spaces_before
    }

    pub fn set_spaces_before(&mut self, value: usize)
        ensures
            final(self).spaces_before == value,
    {
        self.spaces_before = value;
    }
}

} // verus!
