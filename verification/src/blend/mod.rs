use vstd::prelude::*;

use crate::block::parser_inner::event_within;
use crate::block::stack_wrapper::StackEntry;
use crate::block::{is_run, Parser};
use crate::errors::Error;
use crate::events::{spec_closes_inline_phase, BlockEvent};
use crate::utils::stack::Stack;

verus! {

/// The events of the block parser up to the one that closes the current run
/// of events for the inline phase. That event, or the error that stopped the
/// block parser, is kept.
pub struct WhileInlineSegment<'a, TStack: Stack<StackEntry>> {
    pub block_parser: Parser<'a, TStack>,
    /// The event that closed the run, once met.
    pub leftover: Option<BlockEvent>,
    /// The error that stopped the block parser, once met.
    pub error: Option<Error>,
}

impl<'a, TStack: Stack<StackEntry>> WhileInlineSegment<'a, TStack> {
    pub fn new(block_parser: Parser<'a, TStack>) -> (r: Self)
        ensures
            r.block_parser == block_parser,
            r.leftover is None,
            r.error is None,
    {
        WhileInlineSegment { block_parser, leftover: None, error: None }
    }

    /// Gives back the block parser, with the event that closed the run and
    /// the error, if any.
    pub fn drop(self) -> (r: (Parser<'a, TStack>, Option<BlockEvent>, Option<Error>))
        ensures
            r == (self.block_parser, self.leftover, self.error),
    {
        (self.block_parser, self.leftover, self.error)
    }

    /// The next event of the run; `None` once it ends, at an event that
    /// closes it (kept as the leftover), at an error (kept), or at the end
    /// of the block events. Each call asks the block parser for one event,
    /// and the block parser moves as its own `next` says.
    pub fn next(&mut self) -> (r: Option<BlockEvent>)
        requires
            old(self).block_parser.wf(),
        ensures
            final(self).block_parser.wf(),
            final(self).block_parser.input@ == old(self).block_parser.input@,
            match r {
                Some(ev) => {
                    &&& !spec_closes_inline_phase(ev)
                    &&& !(ev is ExitBlock) && !(ev is IndicateCodeBlockCode)
                    &&& final(self).block_parser.yielded@ == old(self).block_parser.yielded@.push(ev)
                    &&& event_within(ev, final(self).block_parser.input@.len())
                    &&& final(self).leftover == old(self).leftover
                    &&& final(self).error == old(self).error
                },
                None => {
                    ||| final(self).leftover matches Some(ev) && spec_closes_inline_phase(ev)
                        && (ev is ExitBlock || ev is IndicateCodeBlockCode)
                        && final(self).block_parser.yielded@ == old(self).block_parser.yielded@.push(
                        ev,
                    ) && final(self).error == old(self).error
                    ||| !old(self).block_parser.is_errored && final(self).block_parser.is_errored
                        && final(self).block_parser.inner.stack.is_full() && final(self).error == Some(
                        Error::OutOfStackSpace,
                    ) && final(self).block_parser.yielded@ == old(self).block_parser.yielded@
                        && final(self).leftover == old(self).leftover
                    ||| final(self).block_parser.is_finished() && final(self).block_parser.yielded@
                        == old(self).block_parser.yielded@ && final(self).leftover == old(
                        self,
                    ).leftover && final(self).error == old(self).error
                },
            },
            exists|run: Seq<Parser<'a, TStack>>|
                run.len() > 0 && run[0] == old(self).block_parser && run.last()
                    == final(self).block_parser && #[trigger] is_run(run),
    {
        match self.block_parser.next() {
            Some(Ok(ev)) => {
                if ev.closes_inline_phase() {
                    self.leftover = Some(ev);
                    None
                } else {
                    Some(ev)
                }
            },
            Some(Err(err)) => {
                self.error = Some(err);
                None
            },
            None => None,
        }
    }
}

} // verus!
