use vstd::prelude::*;

use crate::events::BlockEvent;
use crate::types::LineNumber;

verus! {

/// A context that can only read and move a cursor over the input, and read and
/// increase the current line number.
pub trait CursorContext {
    /// The position of the cursor.
    spec fn spec_cursor(&self) -> usize;

    /// The value of the current line number.
    spec fn spec_line(&self) -> usize;

    fn cursor(&self) -> (r: usize)
        ensures
            r == self.spec_cursor(),
    ;

    fn move_cursor_forward(&mut self, n: usize)
        requires
            old(self).spec_cursor() + n <= usize::MAX,
        ensures
            final(self).spec_cursor() == old(self).spec_cursor() + n,
            final(self).spec_line() == old(self).spec_line(),
    ;

    fn current_line(&self) -> (r: LineNumber)
        ensures
            r.value == self.spec_line(),
    ;

    fn increase_current_line(&mut self)
        requires
            old(self).spec_line() < usize::MAX,
        ensures
            final(self).spec_line() == old(self).spec_line() + 1,
            final(self).spec_cursor() == old(self).spec_cursor(),
    ;
}

/// The cursor of a context lies within an input of length `len`, and the line
/// number can still grow by one for each byte that is left.
pub open spec fn ctx_fits<TCtx: CursorContext>(ctx: &TCtx, len: int) -> bool {
    &&& ctx.spec_cursor() <= len
    &&& ctx.spec_line() + (len - ctx.spec_cursor()) < usize::MAX
}

/// A context that takes the events to be yielded.
pub trait YieldContext {
    /// The events yielded so far and not yet taken.
    spec fn spec_to_yield(&self) -> Seq<BlockEvent>;

    fn yield_event(&mut self, ev: BlockEvent)
        ensures
            final(self).spec_to_yield() == old(self).spec_to_yield().push(ev),
    ;
}

} // verus!
