use vstd::prelude::*;

use crate::block::stack_wrapper::{
    ItemLikeContainer, StackEntry, StackEntryItemLike, StackEntryItemLikeContainer,
};
use crate::events::BlockEvent;

verus! {

/// The state of the block-level parser.
pub enum State {
    Expecting(Expecting),
    /// Pops entries from the stack, yielding their exit events, until a
    /// condition holds, and then does what is planned.
    Exiting(Exiting),
    Ended,
}

/// What the parser expects at the cursor.
#[derive(Clone, Copy, PartialEq, Eq, Structural)]
pub enum Expecting {
    ItemLikeOpening,
    BracedOpening,
    LeafContent,
}

/// How far a state is from the end of the parsing, while the cursor stays
/// where it is; `new_line` tells whether a new line has begun since the state
/// was last expecting something.
pub open spec fn state_rank(s: State, new_line: bool) -> nat {
    match s {
        State::Ended => 0,
        State::Exiting(e) => match e.and_then {
            Some(ExitingAndThen::End) => 1,
            None => 1,
            _ => if new_line {
                6
            } else {
                3
            },
        },
        State::Expecting(x) => if new_line {
            5
        } else if x == Expecting::ItemLikeOpening {
            4
        } else {
            2
        },
    }
}

/// The blocks that an exiting is to enter once done began no later than
/// `line`.
pub open spec fn pending_lines_ok(s: State, line: usize) -> bool {
    match s {
        State::Exiting(e) => match e.and_then {
            Some(ExitingAndThen::EnterItemLikeAndExpectItemLike { container, item_like }) => {
                &&& item_like.meta.line_start.value <= line
                &&& match container {
                    Some(c) => c.meta.line_start.value <= line,
                    None => true,
                }
            },
            _ => true,
        },
        _ => true,
    }
}

/// The ids of the blocks that an exiting is to enter once done, in the
/// order of entering.
pub open spec fn pending_ids(s: State) -> Seq<int> {
    match s {
        State::Exiting(e) => match e.and_then {
            Some(ExitingAndThen::EnterItemLikeAndExpectItemLike { container, item_like }) => {
                match container {
                    Some(c) => seq![c.meta.id.value as int, item_like.meta.id.value as int],
                    None => seq![item_like.meta.id.value as int],
                }
            },
            _ => seq![],
        },
        _ => seq![],
    }
}

/// The ids grow strictly, and lie above `lo` and no higher than `hi`.
pub open spec fn ids_increasing_within(ids: Seq<int>, lo: int, hi: int) -> bool {
    &&& forall|i: int| 0 <= i < ids.len() ==> lo < #[trigger] ids[i] <= hi
    &&& forall|i: int, j: int| 0 <= i < j < ids.len() ==> #[trigger] ids[i] < #[trigger] ids[j]
}

/// An exiting that ends the parsing once the stack is empty.
pub open spec fn is_exiting_to_end(s: State) -> bool {
    s matches State::Exiting(e) && e.and_then matches Some(ExitingAndThen::End)
        && e.until is StackIsEmpty
}

/// The event only indicates where a part of a block begins.
pub open spec fn is_indicator(ev: BlockEvent) -> bool {
    ||| ev is IndicateCodeBlockCode
    ||| ev is IndicateTableCaption
    ||| ev is IndicateTableRow
    ||| ev is IndicateTableHeaderCell
    ||| ev is IndicateTableDataCell
}

/// An exiting that goes on with the parsing once done; an event that it
/// yields then is an indicator.
pub open spec fn is_plain_exiting(s: State) -> bool {
    &&& s matches State::Exiting(e) && e.and_then matches Some(a) && !(a is End)
    &&& s matches State::Exiting(e) && e.and_then matches Some(
        ExitingAndThen::YieldAndExpectBracedOpening(ev),
    ) ==> is_indicator(ev)
}

/// An exiting in progress.
pub struct Exiting {
    pub until: ExitingUntil,
    /// What to do once done; always present while the exiting lasts.
    pub and_then: Option<ExitingAndThen>,
}

impl Exiting {
    pub fn new(until: ExitingUntil, and_then: ExitingAndThen) -> (r: Exiting)
        ensures
            r.until == until,
            r.and_then == Some(and_then),
    {
        Exiting { until, and_then: Some(and_then) }
    }
}

/// When an exiting is done.
#[derive(Clone, Copy)]
pub enum ExitingUntil {
    /// Only `n` item-like containers remain in the stack (and, if so asked,
    /// the top is one of them).
    OnlyNItemLikesRemain { n: usize, should_also_exit_containee_in_last_container: bool },
    /// The top is a table (which is then exited too, if so asked).
    TopIsTable { should_also_exit_table: bool },
    /// The top is a block that gives `||` a meaning (a table).
    TopIsAwareOfDoublePipes,
    StackIsEmpty,
}

/// What to do once an exiting is done.
pub enum ExitingAndThen {
    EnterItemLikeAndExpectItemLike {
        container: Option<StackEntryItemLikeContainer>,
        item_like: StackEntryItemLike,
    },
    ExpectBracedOpening,
    YieldAndExpectBracedOpening(BlockEvent),
    /// Yields what the top that ended the exiting calls for.
    YieldBasedOnContextAndExpectBracedOpening,
    End,
}

/// How far the item-like openings at the beginning of the current line have
/// been matched.
#[derive(Clone, Copy)]
pub enum ItemLikesState {
    /// The openings found now open new blocks.
    ProcessingNew,
    /// The openings found now are matched against the item-like containers that
    /// were open on the last line.
    MatchingLastLine(ItemLikesStateMatchingLastLine),
}

impl ItemLikesState {
    /// Some item-like containers of the last line are not matched yet.
    pub open spec fn spec_has_unprocessed(&self) -> bool {
        match self {
            ItemLikesState::ProcessingNew => false,
            ItemLikesState::MatchingLastLine(m) => m.processed_item_likes
                < m.item_likes_in_stack_at_last_line,
        }
    }

    pub fn has_unprocessed_item_likes_at_current_line(&self) -> (r: bool)
        ensures
            r == self.spec_has_unprocessed(),
    {
        match self {
            ItemLikesState::ProcessingNew => false,
            ItemLikesState::MatchingLastLine(m) => m.has_unprocessed_item_likes_at_current_line(),
        }
    }
}

/// The matching of the item-like containers open on the last line.
#[derive(Clone, Copy)]
pub struct ItemLikesStateMatchingLastLine {
    pub item_likes_in_stack_at_last_line: usize,
    pub processed_item_likes: usize,
}

/// The position in `s` of the `n`-th (from 0) item-like container, searching
/// from `from` on.
pub open spec fn nth_item_like_container_from(s: Seq<StackEntry>, n: nat, from: int) -> Option<int>
    decreases s.len() - from, n,
{
    if from < 0 || from >= s.len() {
        None
    } else if s[from] is ItemLikeContainer {
        if n == 0 {
            Some(from)
        } else {
            nth_item_like_container_from(s, (n - 1) as nat, from + 1)
        }
    } else {
        nth_item_like_container_from(s, n, from + 1)
    }
}

impl ItemLikesStateMatchingLastLine {
    pub fn new(item_likes_in_stack_at_last_line: usize) -> (r: Self)
        ensures
            r.item_likes_in_stack_at_last_line == item_likes_in_stack_at_last_line,
            r.processed_item_likes == 0,
    {
        ItemLikesStateMatchingLastLine { item_likes_in_stack_at_last_line, processed_item_likes: 0 }
    }

    pub fn processed_item_likes(&self) -> (r: usize)
        ensures
            r == self.processed_item_likes,
    {
        self.processed_item_likes
    }

    pub fn has_unprocessed_item_likes_at_current_line(&self) -> (r: bool)
        ensures
            r == (self.processed_item_likes < self.item_likes_in_stack_at_last_line),
    {
        self.processed_item_likes < self.item_likes_in_stack_at_last_line
    }

    /// The kind of the first item-like container not matched yet, if the stack
    /// still holds it.
    pub fn first_unprocessed_item_like(&self, stack: &[StackEntry]) -> (r: Option<
        ItemLikeContainer,
    >)
        ensures
            match nth_item_like_container_from(stack@, self.processed_item_likes as nat, 0) {
                Some(i) => stack@[i] matches StackEntry::ItemLikeContainer(c) && r == Some(c.typ),
                None => r is None,
            },
    {
        let mut i: usize = 0;
        let mut n: usize = self.processed_item_likes;
        while i < stack.len()
            invariant
                i <= stack@.len(),
                nth_item_like_container_from(stack@, self.processed_item_likes as nat, 0)
                    == nth_item_like_container_from(stack@, n as nat, i as int),
            decreases stack@.len() - i,
        {
            match &stack[i] {
                StackEntry::ItemLikeContainer(c) => {
                    if n == 0 {
                        return Some(c.typ);
                    }
                    n = n - 1;
                },
                _ => {},
            }
            i = i + 1;
        }
        None
    }

    /// Marks the first item-like container not matched yet as matched, and
    /// tells whether all are matched now.
    pub fn mark_first_unprocessed_item_like_as_processed_at_current_line(&mut self) -> (r: bool)
        requires
            old(self).processed_item_likes < old(self).item_likes_in_stack_at_last_line,
        ensures
            final(self).processed_item_likes == old(self).processed_item_likes + 1,
            final(self).item_likes_in_stack_at_last_line == old(self).item_likes_in_stack_at_last_line,
            r == (final(self).processed_item_likes == final(self).item_likes_in_stack_at_last_line),
    {
        self.processed_item_likes = self.processed_item_likes + 1;
        self.processed_item_likes == self.item_likes_in_stack_at_last_line
    }
}

} // verus!
