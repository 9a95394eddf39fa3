use vstd::prelude::*;

use crate::errors::Error;
use crate::events::{BlockEvent, BlockWithId, ExitBlock, NewLine};
use crate::types::{BlockId, LineNumber};
use crate::utils::stack::Stack;

verus! {

/// The number of item-like containers in a sequence of stack entries.
pub open spec fn count_item_like_containers(s: Seq<StackEntry>) -> nat
    decreases s.len(),
{
    if s.len() == 0 {
        0
    } else {
        count_item_like_containers(s.drop_last()) + if s.last() is ItemLikeContainer {
            1nat
        } else {
            0nat
        }
    }
}

/// The number of tables in a sequence of stack entries.
pub open spec fn count_tables(s: Seq<StackEntry>) -> nat
    decreases s.len(),
{
    if s.len() == 0 {
        0
    } else {
        count_tables(s.drop_last()) + if s.last() is Table {
            1nat
        } else {
            0nat
        }
    }
}

pub proof fn lemma_counts_bounded(s: Seq<StackEntry>)
    ensures
        count_item_like_containers(s) <= s.len(),
        count_tables(s) <= s.len(),
    decreases s.len(),
{
    if s.len() > 0 {
        lemma_counts_bounded(s.drop_last());
    }
}

proof fn lemma_counts_push(s: Seq<StackEntry>, e: StackEntry)
    ensures
        count_item_like_containers(s.push(e)) == count_item_like_containers(s) + if e is ItemLikeContainer {
            1nat
        } else {
            0nat
        },
        count_tables(s.push(e)) == count_tables(s) + if e is Table {
            1nat
        } else {
            0nat
        },
{
    assert(s.push(e).drop_last() =~= s);
}

/// The stack of open blocks, together with the leaf block on top of it, if
/// any, and counters of what it holds.
pub struct StackWrapper<TStack: Stack<StackEntry>> {
    pub stack: TStack,
    pub top_leaf: Option<TopLeaf>,
    pub item_likes_in_stack: usize,
    pub tables_in_stack: usize,
    pub should_reset_state: bool,
}

impl<TStack: Stack<StackEntry>> StackWrapper<TStack> {
    /// The counters agree with the entries.
    pub open spec fn wf(&self) -> bool {
        &&& self.item_likes_in_stack == count_item_like_containers(self.stack.spec_items())
        &&& self.tables_in_stack == count_tables(self.stack.spec_items())
    }

    /// The entries, bottom first.
    pub open spec fn entries(&self) -> Seq<StackEntry> {
        self.stack.spec_items()
    }

    /// The stack is bounded, and holds as many entries as it can.
    pub open spec fn is_full(&self) -> bool {
        TStack::spec_capacity() matches Some(c) && self.entries().len() >= c
    }

    pub fn new() -> (r: Self)
        ensures
            r.wf(),
            r.entries() == Seq::<StackEntry>::empty(),
            r.top_leaf is None,
            !r.should_reset_state,
    {
        StackWrapper {
            stack: TStack::new(),
            top_leaf: None,
            item_likes_in_stack: 0,
            tables_in_stack: 0,
            should_reset_state: false,
        }
    }

    pub fn as_slice(&self) -> (r: &[StackEntry])
        ensures
            r@ == self.entries(),
    {
        self.stack.as_slice()
    }

    /// There is neither a leaf on top nor any entry.
    pub fn is_empty(&self) -> (r: bool)
        ensures
            r == (self.top_leaf is None && self.entries().len() == 0),
    {
        self.top_leaf.is_none() && self.stack.as_slice().len() == 0
    }

    pub fn item_likes_in_stack(&self) -> (r: usize)
        ensures
            r == self.item_likes_in_stack,
    {
        self.item_likes_in_stack
    }

    pub fn tables_in_stack(&self) -> (r: usize)
        ensures
            r == self.tables_in_stack,
    {
        self.tables_in_stack
    }

    /// Notes that a new line has begun.
    pub fn reset_current_line_for_new_line(&mut self)
        ensures
            final(self).should_reset_state,
            final(self).stack == old(self).stack,
            final(self).top_leaf == old(self).top_leaf,
            final(self).item_likes_in_stack == old(self).item_likes_in_stack,
            final(self).tables_in_stack == old(self).tables_in_stack,
    {
        self.should_reset_state = true;
    }

    pub fn should_reset_state(&self) -> (r: bool)
        ensures
            r == self.should_reset_state,
    {
        self.should_reset_state
    }

    pub fn reset_should_reset_state(&mut self)
        ensures
            !final(self).should_reset_state,
            final(self).stack == old(self).stack,
            final(self).top_leaf == old(self).top_leaf,
            final(self).item_likes_in_stack == old(self).item_likes_in_stack,
            final(self).tables_in_stack == old(self).tables_in_stack,
    {
        self.should_reset_state = false;
    }

    /// The top is an item-like container, with no leaf above it.
    pub fn top_is_item_like_container(&self) -> (r: bool)
        ensures
            r == (self.top_leaf is None && self.entries().len() > 0
                && self.entries().last() is ItemLikeContainer),
    {
        if self.top_leaf.is_some() {
            return false;
        }
        let s = self.stack.as_slice();
        if s.len() == 0 {
            return false;
        }
        match &s[s.len() - 1] {
            StackEntry::ItemLikeContainer(_) => true,
            _ => false,
        }
    }

    /// The top is a table, with no leaf above it.
    pub fn top_is_table(&self) -> (r: bool)
        ensures
            r == (self.top_leaf is None && self.entries().len() > 0
                && self.entries().last() is Table),
    {
        if self.top_leaf.is_some() {
            return false;
        }
        let s = self.stack.as_slice();
        if s.len() == 0 {
            return false;
        }
        match &s[s.len() - 1] {
            StackEntry::Table(_) => true,
            _ => false,
        }
    }

    fn try_push(&mut self, entry: StackEntry) -> (r: Result<(), Error>)
        requires
            old(self).wf(),
        ensures
            final(self).top_leaf == old(self).top_leaf,
            final(self).should_reset_state == old(self).should_reset_state,
            final(self).item_likes_in_stack == old(self).item_likes_in_stack,
            final(self).tables_in_stack == old(self).tables_in_stack,
            match r {
                Ok(()) => final(self).entries() == old(self).entries().push(entry) && old(
                    self,
                ).entries().len() < usize::MAX,
                Err(e) => e == Error::OutOfStackSpace && final(self).entries() == old(
                    self,
                ).entries(),
            },
            (TStack::spec_capacity() matches Some(c) ==> old(self).entries().len() < c) ==> r is Ok,
            r is Err <==> old(self).is_full(),
    {
        self.stack.try_push(entry)
    }

    /// Pushes an item-like entry.
    pub fn push_item_like(&mut self, stack_entry: StackEntryItemLike) -> (r: Result<(), Error>)
        requires
            old(self).wf(),
        ensures
            final(self).wf(),
            final(self).top_leaf == old(self).top_leaf,
            final(self).should_reset_state == old(self).should_reset_state,
            final(self).item_likes_in_stack == old(self).item_likes_in_stack,
            final(self).tables_in_stack == old(self).tables_in_stack,
            match r {
                Ok(()) => final(self).entries() == old(self).entries().push(
                    StackEntry::ItemLike(stack_entry),
                ),
                Err(e) => e == Error::OutOfStackSpace && final(self).entries() == old(
                    self,
                ).entries(),
            },
            (TStack::spec_capacity() matches Some(c) ==> old(self).entries().len() < c) ==> r is Ok,
            r is Err <==> old(self).is_full(),
    {
        let ghost e = StackEntry::ItemLike(stack_entry);
        proof {
            lemma_counts_push(self.entries(), e);
        }
        self.try_push(StackEntry::ItemLike(stack_entry))
    }

    /// Pushes an item-like container entry.
    pub fn push_item_like_container(&mut self, stack_entry: StackEntryItemLikeContainer) -> (r:
        Result<(), Error>)
        requires
            old(self).wf(),
        ensures
            final(self).wf(),
            final(self).top_leaf == old(self).top_leaf,
            final(self).should_reset_state == old(self).should_reset_state,
            final(self).tables_in_stack == old(self).tables_in_stack,
            match r {
                Ok(()) => {
                    &&& final(self).entries() == old(self).entries().push(
                        StackEntry::ItemLikeContainer(stack_entry),
                    )
                    &&& final(self).item_likes_in_stack == old(self).item_likes_in_stack + 1
                },
                Err(e) => {
                    &&& e == Error::OutOfStackSpace
                    &&& final(self).entries() == old(self).entries()
                    &&& final(self).item_likes_in_stack == old(self).item_likes_in_stack
                },
            },
            (TStack::spec_capacity() matches Some(c) ==> old(self).entries().len() < c) ==> r is Ok,
            r is Err <==> old(self).is_full(),
    {
        let ghost e = StackEntry::ItemLikeContainer(stack_entry);
        proof {
            lemma_counts_push(self.entries(), e);
            lemma_counts_bounded(self.entries());
        }
        let r = self.try_push(StackEntry::ItemLikeContainer(stack_entry));
        if r.is_ok() {
            self.item_likes_in_stack = self.item_likes_in_stack + 1;
        }
        r
    }

    /// Pushes a table entry.
    pub fn push_table(&mut self, stack_entry: StackEntryTable) -> (r: Result<(), Error>)
        requires
            old(self).wf(),
        ensures
            final(self).wf(),
            final(self).top_leaf == old(self).top_leaf,
            final(self).should_reset_state == old(self).should_reset_state,
            final(self).item_likes_in_stack == old(self).item_likes_in_stack,
            match r {
                Ok(()) => {
                    &&& final(self).entries() == old(self).entries().push(
                        StackEntry::Table(stack_entry),
                    )
                    &&& final(self).tables_in_stack == old(self).tables_in_stack + 1
                },
                Err(e) => {
                    &&& e == Error::OutOfStackSpace
                    &&& final(self).entries() == old(self).entries()
                    &&& final(self).tables_in_stack == old(self).tables_in_stack
                },
            },
            (TStack::spec_capacity() matches Some(c) ==> old(self).entries().len() < c) ==> r is Ok,
            r is Err <==> old(self).is_full(),
    {
        let ghost e = StackEntry::Table(stack_entry);
        proof {
            lemma_counts_push(self.entries(), e);
            lemma_counts_bounded(self.entries());
        }
        let r = self.try_push(StackEntry::Table(stack_entry));
        if r.is_ok() {
            self.tables_in_stack = self.tables_in_stack + 1;
        }
        r
    }

    /// Puts a leaf block on top.
    pub fn push_top_leaf(&mut self, entry: TopLeaf)
        requires
            old(self).top_leaf is None,
        ensures
            final(self).top_leaf == Some(entry),
            final(self).stack == old(self).stack,
            final(self).should_reset_state == old(self).should_reset_state,
            final(self).item_likes_in_stack == old(self).item_likes_in_stack,
            final(self).tables_in_stack == old(self).tables_in_stack,
    {
        self.top_leaf = Some(entry);
    }

    pub fn is_top_leaf_some(&self) -> (r: bool)
        ensures
            r == self.top_leaf is Some,
    {
        self.top_leaf.is_some()
    }

    /// Pops the top entry below the leaf block.
    pub fn pop(&mut self) -> (r: Option<StackEntry>)
        requires
            old(self).wf(),
        ensures
            final(self).wf(),
            final(self).top_leaf == old(self).top_leaf,
            final(self).should_reset_state == old(self).should_reset_state,
            old(self).entries().len() == 0 ==> r is None && final(self).entries() == old(
                self,
            ).entries(),
            old(self).entries().len() > 0 ==> r == Some(old(self).entries().last())
                && final(self).entries() == old(self).entries().drop_last(),
    {
        let ghost s = self.entries();
        let popped = self.stack.pop();
        match popped {
            Some(StackEntry::ItemLike(e)) => {
                proof {
                    lemma_counts_push(s.drop_last(), s.last());
                    assert(s.drop_last().push(s.last()) =~= s);
                }
                Some(StackEntry::ItemLike(e))
            },
            Some(StackEntry::ItemLikeContainer(e)) => {
                proof {
                    lemma_counts_push(s.drop_last(), s.last());
                    assert(s.drop_last().push(s.last()) =~= s);
                }
                self.item_likes_in_stack = self.item_likes_in_stack - 1;
                Some(StackEntry::ItemLikeContainer(e))
            },
            Some(StackEntry::Table(e)) => {
                proof {
                    lemma_counts_push(s.drop_last(), s.last());
                    assert(s.drop_last().push(s.last()) =~= s);
                }
                self.tables_in_stack = self.tables_in_stack - 1;
                Some(StackEntry::Table(e))
            },
            None => None,
        }
    }

    /// Takes the leaf block off the top.
    pub fn pop_top_leaf(&mut self) -> (r: Option<TopLeaf>)
        ensures
            r == old(self).top_leaf,
            final(self).top_leaf is None,
            final(self).stack == old(self).stack,
            final(self).should_reset_state == old(self).should_reset_state,
            final(self).item_likes_in_stack == old(self).item_likes_in_stack,
            final(self).tables_in_stack == old(self).tables_in_stack,
    {
        self.top_leaf.take()
    }
}

/// An open block that is not a leaf.
pub enum StackEntry {
    ItemLike(StackEntryItemLike),
    ItemLikeContainer(StackEntryItemLikeContainer),
    Table(StackEntryTable),
}

/// The exit event of a block described by `meta`.
pub open spec fn spec_exit_event(meta: Meta, line_end: LineNumber) -> BlockEvent {
    BlockEvent::ExitBlock(ExitBlock { id: meta.id, start_line: meta.line_start, end_line: line_end })
}

/// An item-like block (a list item, a description term or details).
#[derive(Clone, Copy)]
pub struct StackEntryItemLike {
    pub meta: Meta,
    pub typ: GeneralItemLike,
}

impl StackEntryItemLike {
    pub open spec fn spec_enter_event(&self) -> BlockEvent {
        match self.typ {
            GeneralItemLike::LI => BlockEvent::EnterListItem(BlockWithId { id: self.meta.id }),
            GeneralItemLike::DT => BlockEvent::EnterDescriptionTerm(BlockWithId { id: self.meta.id }),
            GeneralItemLike::DD => BlockEvent::EnterDescriptionDetails(
                BlockWithId { id: self.meta.id },
            ),
        }
    }

    pub fn make_enter_event(&self) -> (r: BlockEvent)
        ensures
            r == self.spec_enter_event(),
    {
        match self.typ {
            GeneralItemLike::LI => BlockEvent::EnterListItem(BlockWithId::from_id(self.meta.id)),
            GeneralItemLike::DT => BlockEvent::EnterDescriptionTerm(
                BlockWithId::from_id(self.meta.id),
            ),
            GeneralItemLike::DD => BlockEvent::EnterDescriptionDetails(
                BlockWithId::from_id(self.meta.id),
            ),
        }
    }

    pub fn make_exit_event(self, line_end: LineNumber) -> (r: BlockEvent)
        ensures
            r == spec_exit_event(self.meta, line_end),
    {
        self.meta.make_exit_event(line_end)
    }
}

/// A block that holds item-like blocks, or a block quote.
#[derive(Clone, Copy)]
pub struct StackEntryItemLikeContainer {
    pub meta: Meta,
    pub typ: ItemLikeContainer,
}

impl StackEntryItemLikeContainer {
    pub open spec fn spec_enter_event(&self) -> BlockEvent {
        match self.typ {
            ItemLikeContainer::BlockQuote => BlockEvent::EnterBlockQuote(
                BlockWithId { id: self.meta.id },
            ),
            ItemLikeContainer::OL => BlockEvent::EnterOrderedList(BlockWithId { id: self.meta.id }),
            ItemLikeContainer::UL => BlockEvent::EnterUnorderedList(
                BlockWithId { id: self.meta.id },
            ),
            ItemLikeContainer::DL => BlockEvent::EnterDescriptionList(
                BlockWithId { id: self.meta.id },
            ),
        }
    }

    pub fn make_enter_event(&self) -> (r: BlockEvent)
        ensures
            r == self.spec_enter_event(),
    {
        match self.typ {
            ItemLikeContainer::BlockQuote => BlockEvent::EnterBlockQuote(
                BlockWithId::from_id(self.meta.id),
            ),
            ItemLikeContainer::OL => BlockEvent::EnterOrderedList(
                BlockWithId::from_id(self.meta.id),
            ),
            ItemLikeContainer::UL => BlockEvent::EnterUnorderedList(
                BlockWithId::from_id(self.meta.id),
            ),
            ItemLikeContainer::DL => BlockEvent::EnterDescriptionList(
                BlockWithId::from_id(self.meta.id),
            ),
        }
    }

    pub fn make_exit_event(self, line_end: LineNumber) -> (r: BlockEvent)
        ensures
            r == spec_exit_event(self.meta, line_end),
    {
        self.meta.make_exit_event(line_end)
    }
}

/// A table.
#[derive(Clone, Copy)]
pub struct StackEntryTable {
    pub meta: Meta,
}

impl StackEntryTable {
    pub fn make_enter_event(&self) -> (r: BlockEvent)
        ensures
            r == BlockEvent::EnterTable(BlockWithId { id: self.meta.id }),
    {
        BlockEvent::EnterTable(BlockWithId::from_id(self.meta.id))
    }

    pub fn make_exit_event(self, line_end: LineNumber) -> (r: BlockEvent)
        ensures
            r == spec_exit_event(self.meta, line_end),
    {
        self.meta.make_exit_event(line_end)
    }
}

/// The id of an open block and the line where it began.
#[derive(Debug, Clone, Copy)]
pub struct Meta {
    pub id: BlockId,
    pub line_start: LineNumber,
}

impl Meta {
    pub fn new(id: BlockId, line_start: LineNumber) -> (r: Meta)
        ensures
            r.id == id,
            r.line_start == line_start,
    {
        Meta { id, line_start }
    }

    pub fn make_exit_event(self, line_end: LineNumber) -> (r: BlockEvent)
        ensures
            r == spec_exit_event(self, line_end),
    {
        BlockEvent::ExitBlock(ExitBlock { id: self.id, start_line: self.line_start, end_line: line_end })
    }
}

/// The kinds of item-like containers.
#[derive(Debug, Clone, Copy, PartialEq, Eq, Structural)]
pub enum ItemLikeContainer {
    BlockQuote,
    /// ordered list
    OL,
    /// unordered list
    UL,
    /// description list
    DL,
}

/// The kinds of item-like blocks.
#[derive(Debug, Clone, Copy, PartialEq, Eq, Structural)]
pub enum GeneralItemLike {
    /// of an ordered or an unordered list
    LI,
    /// of a description list
    DT,
    /// of a description list
    DD,
}

/// The leaf block on top of the stack.
pub enum TopLeaf {
    Paragraph(TopLeafParagraph),
    Heading(TopLeafHeading),
    CodeBlock(TopLeafCodeBlock),
}

/// A paragraph, with the line break that ended its last line, if any.
pub struct TopLeafParagraph {
    pub meta: Meta,
    pub new_line: Option<NewLine>,
}

impl TopLeafParagraph {
    pub fn make_enter_event(&self) -> (r: BlockEvent)
        ensures
            r == BlockEvent::EnterParagraph(BlockWithId { id: self.meta.id }),
    {
        BlockEvent::EnterParagraph(BlockWithId::from_id(self.meta.id))
    }

    pub fn make_exit_event(self, line_end: LineNumber) -> (r: BlockEvent)
        ensures
            r == spec_exit_event(self.meta, line_end),
    {
        self.meta.make_exit_event(line_end)
    }
}

/// A heading of level 1 to 6.
pub struct TopLeafHeading {
    pub meta: Meta,
    pub level: usize,
    pub has_content_before: bool,
}

/// The event that enters a heading of the given level.
pub open spec fn spec_enter_heading_event(level: usize, id: BlockId) -> BlockEvent {
    let b = BlockWithId { id };
    if level == 1 {
        BlockEvent::EnterHeading1(b)
    } else if level == 2 {
        BlockEvent::EnterHeading2(b)
    } else if level == 3 {
        BlockEvent::EnterHeading3(b)
    } else if level == 4 {
        BlockEvent::EnterHeading4(b)
    } else if level == 5 {
        BlockEvent::EnterHeading5(b)
    } else {
        BlockEvent::EnterHeading6(b)
    }
}

impl TopLeafHeading {
    pub fn make_enter_event(&self) -> (r: BlockEvent)
        requires
            1 <= self.level <= 6,
        ensures
            r == spec_enter_heading_event(self.level, self.meta.id),
    {
        let b = BlockWithId::from_id(self.meta.id);
        if self.level == 1 {
            BlockEvent::EnterHeading1(b)
        } else if self.level == 2 {
            BlockEvent::EnterHeading2(b)
        } else if self.level == 3 {
            BlockEvent::EnterHeading3(b)
        } else if self.level == 4 {
            BlockEvent::EnterHeading4(b)
        } else if self.level == 5 {
            BlockEvent::EnterHeading5(b)
        } else {
            BlockEvent::EnterHeading6(b)
        }
    }

    pub fn make_exit_event(self, line_end: LineNumber) -> (r: BlockEvent)
        ensures
            r == spec_exit_event(self.meta, line_end),
    {
        self.meta.make_exit_event(line_end)
    }
}

/// A code block.
pub struct TopLeafCodeBlock {
    pub meta: Meta,
    /// The number of backticks of the opening fence.
    pub backticks: usize,
    /// The spaces before the opening fence; up to as many are dropped from
    /// each line of code.
    pub indent: usize,
    pub state: TopLeafCodeBlockState,
}

/// Where a code block is.
#[derive(Clone, Copy)]
pub enum TopLeafCodeBlockState {
    InInfoString,
    InCode(TopLeafCodeBlockStateInCode),
}

/// Where a code block is within its code.
#[derive(Clone, Copy)]
pub enum TopLeafCodeBlockStateInCode {
    AtFirstLineBeginning,
    /// At the beginning of a later line, after the given line break.
    AtLineBeginning(NewLine),
    Normal,
}

impl TopLeafCodeBlock {
    pub fn make_enter_event(&self) -> (r: BlockEvent)
        ensures
            r == BlockEvent::EnterCodeBlock(BlockWithId { id: self.meta.id }),
    {
        BlockEvent::EnterCodeBlock(BlockWithId::from_id(self.meta.id))
    }

    pub fn make_exit_event(self, line_end: LineNumber) -> (r: BlockEvent)
        ensures
            r == spec_exit_event(self.meta, line_end),
    {
        self.meta.make_exit_event(line_end)
    }
}

} // verus!
