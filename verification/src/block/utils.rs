use vstd::prelude::*;

use crate::types::{BlockId, LineNumber};

use super::types::CursorContext;

verus! {

/// The number of consecutive bytes equal to `c` in `s`, starting at `start`.
pub open spec fn run_len(s: Seq<u8>, c: u8, start: int) -> nat
    decreases s.len() - start,
{
    if 0 <= start < s.len() && s[start] == c {
        1 + run_len(s, c, start + 1)
    } else {
        0
    }
}

/// A run of `c` never reaches past the end of `s`.
pub proof fn lemma_run_len_bounded(s: Seq<u8>, c: u8, start: int)
    requires
        0 <= start <= s.len(),
    ensures
        start + run_len(s, c, start) <= s.len(),
        forall|i: int| start <= i < start + run_len(s, c, start) ==> s[i] == c,
        start + run_len(s, c, start) < s.len() ==> s[start + run_len(s, c, start)] != c,
    decreases s.len() - start,
{
    if start < s.len() && s[start] == c {
        lemma_run_len_bounded(s, c, start + 1);
    }
}

/// Counts the consecutive bytes equal to `character` from `start_index`
/// (inclusive) on.
pub fn count_continuous_character(input: &[u8], character: u8, start_index: usize) -> (r: usize)
    requires
        start_index <= input@.len(),
    ensures
        r == run_len(input@, character, start_index as int),
        start_index + r <= input@.len(),
{
    proof {
        lemma_run_len_bounded(input@, character, start_index as int);
    }
    let len = input.len();
    let mut count: usize = 0;
    while count < len - start_index && input[start_index + count] == character
        invariant
            len == input@.len(),
            start_index + count <= input@.len(),
            run_len(input@, character, start_index as int) == count + run_len(
                input@,
                character,
                (start_index + count) as int,
            ),
        decreases input@.len() - start_index - count,
    {
        count = count + 1;
    }
    count
}

/// Hands out block ids 1, 2, 3, … in turn.
pub struct BlockIdGenerator {
    pub last: usize,
    /// The greatest id that an event queued so far carries (0 if none).
    pub queued: Ghost<int>,
    /// The greatest id that an event taken from the queue carries (0 if
    /// none).
    pub taken: Ghost<int>,
}

impl BlockIdGenerator {
    /// A generator that has handed out no id yet.
    pub fn new() -> (r: BlockIdGenerator)
        ensures
            r.last == 0,
            r.queued@ == 0,
            r.taken@ == 0,
    {
        BlockIdGenerator { last: 0, queued: Ghost(0), taken: Ghost(0) }
    }

    /// The number of ids handed out so far.
    pub open spec fn spec_last(&self) -> usize {
        self.last
    }

    /// Hands out the next id.
    pub fn pop(&mut self) -> (r: BlockId)
        requires
            old(self).spec_last() < usize::MAX,
        ensures
            final(self).spec_last() == old(self).spec_last() + 1,
            r.value == final(self).spec_last(),
            final(self).queued == old(self).queued,
            final(self).taken == old(self).taken,
            block_id_popped(*old(self), *final(self), r),
    {
        self.last = self.last + 1;
        BlockId::new(self.last)
    }
}

/// Popping the generator `a` handed out `id` and left `b`.
pub open spec fn block_id_popped(a: BlockIdGenerator, b: BlockIdGenerator, id: BlockId) -> bool {
    &&& b.last == a.last + 1
    &&& id.value == b.last
}

/// The generators of a run of pops have handed out as many ids as there
/// were pops.
proof fn lemma_block_id_runs(gens: Seq<BlockIdGenerator>, ids: Seq<BlockId>, j: int)
    requires
        gens.len() == ids.len() + 1,
        gens[0].last == 0,
        forall|i: int| 0 <= i < ids.len() ==> block_id_popped(gens[i], gens[i + 1], #[trigger] ids[i]),
        0 <= j <= ids.len(),
    ensures
        gens[j].last == j,
    decreases j,
{
    if j > 0 {
        lemma_block_id_runs(gens, ids, j - 1);
        assert(block_id_popped(gens[j - 1], gens[j], ids[j - 1]));
    }
}

/// A generator that has handed out no id hands out 1, 2, 3, … in turn: the
/// ids of successive pops start at 1, grow by one each time, and so never
/// repeat.
pub proof fn lemma_block_ids_count_up(gens: Seq<BlockIdGenerator>, ids: Seq<BlockId>)
    requires
        gens.len() == ids.len() + 1,
        gens[0].last == 0,
        forall|i: int| 0 <= i < ids.len() ==> block_id_popped(gens[i], gens[i + 1], #[trigger] ids[i]),
    ensures
        forall|i: int| 0 <= i < ids.len() ==> (#[trigger] ids[i]).value == i + 1,
        forall|i: int, k: int| 0 <= i < k < ids.len() ==> ids[i].value < ids[k].value,
{
    assert forall|i: int| 0 <= i < ids.len() implies (#[trigger] ids[i]).value == i + 1 by {
        lemma_block_id_runs(gens, ids, i + 1);
        assert(block_id_popped(gens[i], gens[i + 1], ids[i]));
    }
    assert forall|i: int, k: int| 0 <= i < k < ids.len() implies ids[i].value < ids[k].value by {
        assert(ids[i].value == i + 1);
        assert(ids[k].value == k + 1);
    }
}

} // verus!

verus! {

/// A cursor over the input together with the current line number.
#[derive(Debug, Clone, Copy, PartialEq, Eq)]
pub struct InputCursor {
    pub cursor: usize,
    pub current_line: LineNumber,
}

impl InputCursor {
    /// A cursor at the start of the input, on line 1.
    pub fn new() -> (r: InputCursor)
        ensures
            r.cursor == 0,
            r.current_line.value == 1,
    {
        InputCursor { cursor: 0, current_line: LineNumber::new(1) }
    }
}

impl CursorContext for InputCursor {
    open spec fn spec_cursor(&self) -> usize {
        self.cursor
    }

    open spec fn spec_line(&self) -> usize {
        self.current_line.value
    }

    fn cursor(&self) -> (r: usize) {
        self.cursor
    }

    fn move_cursor_forward(&mut self, n: usize) {
        self.cursor = self.cursor + n;
    }

    fn current_line(&self) -> (r: LineNumber) {
        self.current_line
    }

    fn increase_current_line(&mut self) {
        self.current_line.increase();
    }
}

} // verus!
