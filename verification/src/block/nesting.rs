use vstd::prelude::*;

use core::ops::Range;

use crate::block::stack_wrapper::{StackEntry, StackWrapper, TopLeaf};
use crate::events::BlockEvent;
use crate::types::{BlockId, LineNumber};
use crate::utils::stack::Stack;

verus! {

/// The id of the block that the event enters, if it enters one.
pub open spec fn entered_id(ev: BlockEvent) -> Option<BlockId> {
    match ev {
        BlockEvent::EnterParagraph(b) => Some(b.id),
        BlockEvent::EnterHeading1(b) => Some(b.id),
        BlockEvent::EnterHeading2(b) => Some(b.id),
        BlockEvent::EnterHeading3(b) => Some(b.id),
        BlockEvent::EnterHeading4(b) => Some(b.id),
        BlockEvent::EnterHeading5(b) => Some(b.id),
        BlockEvent::EnterHeading6(b) => Some(b.id),
        BlockEvent::EnterBlockQuote(b) => Some(b.id),
        BlockEvent::EnterOrderedList(b) => Some(b.id),
        BlockEvent::EnterUnorderedList(b) => Some(b.id),
        BlockEvent::EnterListItem(b) => Some(b.id),
        BlockEvent::EnterDescriptionList(b) => Some(b.id),
        BlockEvent::EnterDescriptionTerm(b) => Some(b.id),
        BlockEvent::EnterDescriptionDetails(b) => Some(b.id),
        BlockEvent::EnterCodeBlock(b) => Some(b.id),
        BlockEvent::EnterTable(b) => Some(b.id),
        _ => None,
    }
}

/// The blocks open after one more event, innermost last; `None` where the
/// event exits a block that is not the innermost open one.
pub open spec fn nesting_step(open: Seq<BlockId>, ev: BlockEvent) -> Option<Seq<BlockId>> {
    match entered_id(ev) {
        Some(id) => Some(open.push(id)),
        None => match ev {
            BlockEvent::ExitBlock(exit) => if open.len() > 0 && open.last() == exit.id {
                Some(open.drop_last())
            } else {
                None
            },
            _ => Some(open),
        },
    }
}

/// The blocks open after the events `evs`, with the blocks `open` open
/// before them; `None` where an event exits a block that is not the
/// innermost open one.
pub open spec fn nesting_after(open: Seq<BlockId>, evs: Seq<BlockEvent>) -> Option<Seq<BlockId>>
    decreases evs.len(),
{
    if evs.len() == 0 {
        Some(open)
    } else {
        match nesting_after(open, evs.drop_last()) {
            Some(o) => nesting_step(o, evs.last()),
            None => None,
        }
    }
}

/// The id of an open block that is not a leaf.
pub open spec fn entry_id(e: StackEntry) -> BlockId {
    match e {
        StackEntry::ItemLike(x) => x.meta.id,
        StackEntry::ItemLikeContainer(x) => x.meta.id,
        StackEntry::Table(x) => x.meta.id,
    }
}

/// The id of a leaf block.
pub open spec fn leaf_id(l: TopLeaf) -> BlockId {
    match l {
        TopLeaf::Paragraph(x) => x.meta.id,
        TopLeaf::Heading(x) => x.meta.id,
        TopLeaf::CodeBlock(x) => x.meta.id,
    }
}

/// The line where an open block that is not a leaf began.
pub open spec fn entry_line(e: StackEntry) -> LineNumber {
    match e {
        StackEntry::ItemLike(x) => x.meta.line_start,
        StackEntry::ItemLikeContainer(x) => x.meta.line_start,
        StackEntry::Table(x) => x.meta.line_start,
    }
}

/// The line where a leaf block began.
pub open spec fn leaf_line(l: TopLeaf) -> LineNumber {
    match l {
        TopLeaf::Paragraph(x) => x.meta.line_start,
        TopLeaf::Heading(x) => x.meta.line_start,
        TopLeaf::CodeBlock(x) => x.meta.line_start,
    }
}

/// The ids of the entries, bottom first.
pub open spec fn entry_ids(entries: Seq<StackEntry>) -> Seq<BlockId> {
    entries.map_values(|e: StackEntry| entry_id(e))
}

/// The ids of the open blocks, outermost first: the entries, then the leaf
/// block on top, if any.
pub open spec fn open_ids<TStack: Stack<StackEntry>>(stack: &StackWrapper<TStack>) -> Seq<BlockId> {
    match stack.top_leaf {
        Some(l) => entry_ids(stack.entries()).push(leaf_id(l)),
        None => entry_ids(stack.entries()),
    }
}

/// The event neither enters nor exits a block.
pub open spec fn is_neutral(ev: BlockEvent) -> bool {
    entered_id(ev) is None && !(ev is ExitBlock)
}

/// Events that neither enter nor exit blocks leave the open blocks as they
/// are.
pub proof fn lemma_nesting_neutral(open: Seq<BlockId>, evs: Seq<BlockEvent>)
    requires
        forall|i: int| 0 <= i < evs.len() ==> is_neutral(#[trigger] evs[i]),
    ensures
        nesting_after(open, evs) == Some(open),
    decreases evs.len(),
{
    if evs.len() > 0 {
        lemma_nesting_neutral(open, evs.drop_last());
    }
}

/// Events that neither enter nor exit blocks, followed by one event, act
/// as that one event.
pub proof fn lemma_nesting_neutral_then(open: Seq<BlockId>, evs: Seq<BlockEvent>, ev: BlockEvent)
    requires
        forall|i: int| 0 <= i < evs.len() ==> is_neutral(#[trigger] evs[i]),
    ensures
        nesting_after(open, evs) == Some(open),
        nesting_after(open, evs.push(ev)) == nesting_step(open, ev),
{
    lemma_nesting_neutral(open, evs);
    lemma_nesting_push(open, evs, ev);
}

/// An event that enters a block, followed by events that neither enter nor
/// exit blocks, leaves that block open inside the others.
pub proof fn lemma_nesting_enter_then_neutral(
    open: Seq<BlockId>,
    ev: BlockEvent,
    id: BlockId,
    evs: Seq<BlockEvent>,
)
    requires
        entered_id(ev) == Some(id),
        forall|i: int| 0 <= i < evs.len() ==> is_neutral(#[trigger] evs[i]),
    ensures
        nesting_after(open, seq![ev] + evs) == Some(open.push(id)),
{
    lemma_nesting_append(open, seq![ev], evs);
    lemma_nesting_push(open, Seq::empty(), ev);
    assert(Seq::<BlockEvent>::empty().push(ev) =~= seq![ev]);
    lemma_nesting_neutral(open.push(id), evs);
}

/// One more event, from blocks known to be open after the others.
pub proof fn lemma_nesting_extend(
    open: Seq<BlockId>,
    evs: Seq<BlockEvent>,
    cur: Seq<BlockId>,
    ev: BlockEvent,
    next: Seq<BlockId>,
)
    requires
        nesting_after(open, evs) == Some(cur),
        nesting_step(cur, ev) == Some(next),
    ensures
        nesting_after(open, evs.push(ev)) == Some(next),
{
    lemma_nesting_push(open, evs, ev);
}

/// The id of the block that the event enters or stands for, if any.
pub open spec fn block_id_of(ev: BlockEvent) -> Option<BlockId> {
    match ev {
        BlockEvent::ThematicBreak(t) => Some(t.id),
        _ => entered_id(ev),
    }
}

/// The block ids that the events carry grow strictly, event by event: no two
/// blocks share an id, and a block met later has a greater one.
pub open spec fn ids_grow(evs: Seq<BlockEvent>) -> bool {
    forall|i: int, j: int|
        #![trigger evs[i], evs[j]]
        0 <= i < j < evs.len() && block_id_of(evs[i]) is Some && block_id_of(evs[j]) is Some
            ==> block_id_of(evs[i])->0.value < block_id_of(evs[j])->0.value
}

/// The block ids that the events carry grow strictly, and all lie above
/// `lo` and no higher than `hi`.
pub open spec fn ids_fresh(evs: Seq<BlockEvent>, lo: int, hi: int) -> bool {
    &&& forall|i: int|
        0 <= i < evs.len() ==> (block_id_of(#[trigger] evs[i]) matches Some(id) ==> lo < id.value
            <= hi)
    &&& ids_grow(evs)
}

/// The id that the first event carries, if any, else `lo`.
pub open spec fn first_id_or(evs: Seq<BlockEvent>, lo: int) -> int {
    match block_id_of(evs[0]) {
        Some(id) => id.value as int,
        None => lo,
    }
}

/// Taking the first event off fresh events leaves the rest fresh above the id
/// it carried.
pub proof fn lemma_ids_fresh_drop_first(evs: Seq<BlockEvent>, lo: int, hi: int)
    requires
        ids_fresh(evs, lo, hi),
        evs.len() > 0,
        lo <= hi,
    ensures
        ids_fresh(evs.drop_first(), first_id_or(evs, lo), hi),
        lo <= first_id_or(evs, lo) <= hi,
        ids_fresh(seq![evs[0]], lo, first_id_or(evs, lo)),
{
    let r = evs.drop_first();
    assert(block_id_of(evs[0]) matches Some(id) ==> lo < id.value <= hi);
    assert forall|i: int| 0 <= i < r.len() implies (block_id_of(#[trigger] r[i]) matches Some(id)
        ==> first_id_or(evs, lo) < id.value <= hi) by {
        assert(r[i] == evs[i + 1]);
        if block_id_of(evs[0]) is Some && block_id_of(evs[i + 1]) is Some {
            assert(block_id_of(evs[0])->0.value < block_id_of(evs[i + 1])->0.value);
        }
    }
    assert forall|i: int, j: int|
        #![trigger r[i], r[j]]
        0 <= i < j < r.len() && block_id_of(r[i]) is Some && block_id_of(r[j]) is Some implies block_id_of(
        r[i],
    )->0.value < block_id_of(r[j])->0.value by {
        assert(r[i] == evs[i + 1] && r[j] == evs[j + 1]);
    }
    let one = seq![evs[0]];
    assert(one[0] == evs[0]);
}


/// Fresh ids in two parts, the second above the first, are fresh together.
pub proof fn lemma_ids_fresh_append(a: Seq<BlockEvent>, b: Seq<BlockEvent>, lo: int, mid: int, hi: int)
    requires
        ids_fresh(a, lo, mid),
        ids_fresh(b, mid, hi),
        lo <= mid <= hi,
    ensures
        ids_fresh(a + b, lo, hi),
{
    let c = a + b;
    assert forall|i: int, j: int|
        #![trigger c[i], c[j]]
        0 <= i < j < c.len() && block_id_of(c[i]) is Some && block_id_of(c[j]) is Some implies block_id_of(
        c[i],
    )->0.value < block_id_of(c[j])->0.value by {
        if j < a.len() {
            assert(c[i] == a[i] && c[j] == a[j]);
        } else if i >= a.len() {
            assert(c[i] == b[i - a.len()] && c[j] == b[j - a.len()]);
        } else {
            assert(c[i] == a[i] && c[j] == b[j - a.len()]);
        }
    }
    assert forall|i: int| 0 <= i < c.len() implies (block_id_of(#[trigger] c[i]) matches Some(id)
        ==> lo < id.value <= hi) by {
        if i < a.len() {
            assert(c[i] == a[i]);
        } else {
            assert(c[i] == b[i - a.len()]);
        }
    }
}

/// One more event with a fresh id, or with none.
pub proof fn lemma_ids_fresh_push(a: Seq<BlockEvent>, ev: BlockEvent, lo: int, mid: int, hi: int)
    requires
        ids_fresh(a, lo, mid),
        lo <= mid <= hi,
        block_id_of(ev) matches Some(id) ==> mid < id.value <= hi,
    ensures
        ids_fresh(a.push(ev), lo, hi),
{
    assert(ids_fresh(seq![ev], mid, hi));
    lemma_ids_fresh_append(a, seq![ev], lo, mid, hi);
    assert(a + seq![ev] =~= a.push(ev));
}

/// Taking the events in two parts gives what taking them at once does.
pub proof fn lemma_nesting_append(open: Seq<BlockId>, a: Seq<BlockEvent>, b: Seq<BlockEvent>)
    ensures
        nesting_after(open, a + b) == match nesting_after(open, a) {
            Some(o) => nesting_after(o, b),
            None => None,
        },
    decreases b.len(),
{
    if b.len() == 0 {
        assert(a + b =~= a);
    } else {
        assert((a + b).drop_last() =~= a + b.drop_last());
        assert((a + b).last() == b.last());
        lemma_nesting_append(open, a, b.drop_last());
    }
}

/// One more event is one more step.
pub proof fn lemma_nesting_push(open: Seq<BlockId>, evs: Seq<BlockEvent>, ev: BlockEvent)
    ensures
        nesting_after(open, evs.push(ev)) == match nesting_after(open, evs) {
            Some(o) => nesting_step(o, ev),
            None => None,
        },
{
    assert(evs.push(ev).drop_last() =~= evs);
}

/// The ids of entries with one more pushed.
pub proof fn lemma_entry_ids_push(entries: Seq<StackEntry>, e: StackEntry)
    ensures
        entry_ids(entries.push(e)) == entry_ids(entries).push(entry_id(e)),
{
    assert(entry_ids(entries.push(e)) =~= entry_ids(entries).push(entry_id(e)));
}

/// The ids of entries with the top one popped.
pub proof fn lemma_entry_ids_drop_last(entries: Seq<StackEntry>)
    requires
        entries.len() > 0,
    ensures
        entry_ids(entries.drop_last()) == entry_ids(entries).drop_last(),
        entry_ids(entries).last() == entry_id(entries.last()),
{
    assert(entry_ids(entries.drop_last()) =~= entry_ids(entries).drop_last());
}

/// The range of the input whose text the event carries, if any.
pub open spec fn text_range(ev: BlockEvent) -> Option<Range<usize>> {
    match ev {
        BlockEvent::Unparsed(r) => Some(r),
        BlockEvent::Text(r) => Some(r),
        BlockEvent::VerbatimEscaping(v) => Some(v.content),
        _ => None,
    }
}

/// The ranges of the input whose text the events carry come in input
/// order, one after the other, without overlapping.
pub open spec fn texts_in_order(evs: Seq<BlockEvent>) -> bool {
    forall|i: int, j: int|
        #![trigger evs[i], evs[j]]
        0 <= i < j < evs.len() && text_range(evs[i]) is Some && text_range(evs[j]) is Some
            ==> text_range(evs[i])->0.end <= text_range(evs[j])->0.start
}

/// The ranges of the input whose text the events carry come in input order
/// and lie between `lo` and `hi`.
pub open spec fn texts_fresh(evs: Seq<BlockEvent>, lo: int, hi: int) -> bool {
    &&& forall|i: int|
        0 <= i < evs.len() ==> (text_range(#[trigger] evs[i]) matches Some(r) ==> lo <= r.start
            <= r.end <= hi)
    &&& texts_in_order(evs)
}

/// Where the text of the first event ends, if it carries one, else `lo`.
pub open spec fn first_text_end_or(evs: Seq<BlockEvent>, lo: int) -> int {
    match text_range(evs[0]) {
        Some(r) => r.end as int,
        None => lo,
    }
}

/// Texts in order, the last ending before the text of one more event, stay
/// in order.
pub proof fn lemma_texts_fresh_push(a: Seq<BlockEvent>, ev: BlockEvent, lo: int, mid: int, hi: int)
    requires
        texts_fresh(a, lo, mid),
        lo <= mid <= hi,
        text_range(ev) matches Some(r) ==> mid <= r.start <= r.end <= hi,
    ensures
        texts_fresh(a.push(ev), lo, hi),
{
    let c = a.push(ev);
    assert forall|i: int, j: int|
        #![trigger c[i], c[j]]
        0 <= i < j < c.len() && text_range(c[i]) is Some && text_range(c[j]) is Some implies text_range(
        c[i],
    )->0.end <= text_range(c[j])->0.start by {
        assert(c[i] == a[i]);
        if j < a.len() {
            assert(c[j] == a[j]);
        }
    }
    assert forall|i: int| 0 <= i < c.len() implies (text_range(#[trigger] c[i]) matches Some(r)
        ==> lo <= r.start <= r.end <= hi) by {
        if i < a.len() {
            assert(c[i] == a[i]);
        }
    }
}

/// Taking the first event off texts in order leaves the rest in order,
/// after the text of the first.
pub proof fn lemma_texts_fresh_drop_first(evs: Seq<BlockEvent>, lo: int, hi: int)
    requires
        texts_fresh(evs, lo, hi),
        evs.len() > 0,
        lo <= hi,
    ensures
        texts_fresh(evs.drop_first(), first_text_end_or(evs, lo), hi),
        lo <= first_text_end_or(evs, lo) <= hi,
        text_range(evs[0]) matches Some(r) ==> lo <= r.start <= r.end == first_text_end_or(evs, lo),
{
    let r = evs.drop_first();
    assert(text_range(evs[0]) matches Some(x) ==> lo <= x.start <= x.end <= hi);
    assert forall|i: int| 0 <= i < r.len() implies (text_range(#[trigger] r[i]) matches Some(x)
        ==> first_text_end_or(evs, lo) <= x.start <= x.end <= hi) by {
        assert(r[i] == evs[i + 1]);
        if text_range(evs[0]) is Some && text_range(evs[i + 1]) is Some {
            assert(text_range(evs[0])->0.end <= text_range(evs[i + 1])->0.start);
        }
    }
    assert forall|i: int, j: int|
        #![trigger r[i], r[j]]
        0 <= i < j < r.len() && text_range(r[i]) is Some && text_range(r[j]) is Some implies text_range(
        r[i],
    )->0.end <= text_range(r[j])->0.start by {
        assert(r[i] == evs[i + 1] && r[j] == evs[j + 1]);
    }
}

/// How an event changes the count of open blocks: one up for a block
/// entered, one down for a block exited.
pub open spec fn depth_change(ev: BlockEvent) -> int {
    if entered_id(ev) is Some {
        1
    } else if ev is ExitBlock {
        -1
    } else {
        0
    }
}

/// The count of open blocks that the events add up to.
pub open spec fn depth_sum(evs: Seq<BlockEvent>) -> int
    decreases evs.len(),
{
    if evs.len() == 0 {
        0
    } else {
        depth_sum(evs.drop_last()) + depth_change(evs.last())
    }
}

/// The blocks open after well-nested events are those open before, and as
/// many more as the events add up to.
proof fn lemma_nesting_len(open: Seq<BlockId>, evs: Seq<BlockEvent>)
    requires
        nesting_after(open, evs) is Some,
    ensures
        nesting_after(open, evs)->0.len() == open.len() + depth_sum(evs),
    decreases evs.len(),
{
    if evs.len() > 0 {
        lemma_nesting_len(open, evs.drop_last());
    }
}

/// Every prefix of well-nested events is well nested.
proof fn lemma_nesting_prefix(open: Seq<BlockId>, evs: Seq<BlockEvent>, k: int)
    requires
        nesting_after(open, evs) is Some,
        0 <= k <= evs.len(),
    ensures
        nesting_after(open, evs.take(k)) is Some,
        nesting_after(open, evs.take(k))->0.len() == open.len() + depth_sum(evs.take(k)),
    decreases evs.len(),
{
    if k == evs.len() {
        assert(evs.take(k) =~= evs);
        lemma_nesting_len(open, evs);
    } else {
        assert(evs.drop_last().take(k) =~= evs.take(k));
        lemma_nesting_prefix(open, evs.drop_last(), k);
    }
}

/// Counting each block entered as one up and each block exited as one down,
/// no prefix of well-nested events counts below zero, each exit closes the
/// innermost block still open (the one entered last with the id it carries),
/// and events that leave no block open count to zero.
pub proof fn lemma_nesting_counts(evs: Seq<BlockEvent>)
    requires
        nesting_after(Seq::empty(), evs) is Some,
    ensures
        forall|k: int| 0 <= k <= evs.len() ==> depth_sum(#[trigger] evs.take(k)) >= 0,
        forall|k: int|
            0 <= k < evs.len() && #[trigger] evs[k] is ExitBlock ==> {
                let o = nesting_after(Seq::empty(), evs.take(k))->0;
                &&& nesting_after(Seq::empty(), evs.take(k)) is Some
                &&& o.len() > 0
                &&& o.last() == evs[k]->ExitBlock_0.id
            },
        nesting_after(Seq::empty(), evs) == Some(Seq::<BlockId>::empty()) ==> depth_sum(evs) == 0,
{
    assert forall|k: int| 0 <= k <= evs.len() implies depth_sum(#[trigger] evs.take(k)) >= 0 by {
        lemma_nesting_prefix(Seq::empty(), evs, k);
    }
    assert forall|k: int|
        0 <= k < evs.len() && #[trigger] evs[k] is ExitBlock implies {
            let o = nesting_after(Seq::empty(), evs.take(k))->0;
            &&& nesting_after(Seq::empty(), evs.take(k)) is Some
            &&& o.len() > 0
            &&& o.last() == evs[k]->ExitBlock_0.id
        } by {
        lemma_nesting_prefix(Seq::empty(), evs, k + 1);
        assert(evs.take(k + 1).drop_last() =~= evs.take(k));
        assert(evs.take(k + 1).last() == evs[k]);
        lemma_nesting_push(Seq::empty(), evs.take(k), evs[k]);
        assert(evs.take(k).push(evs[k]) =~= evs.take(k + 1));
    }
    lemma_nesting_len(Seq::empty(), evs);
}

} // verus!
