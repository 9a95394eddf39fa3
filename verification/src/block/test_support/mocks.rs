use vstd::prelude::*;

use crate::block::types::CursorContext;
use crate::types::LineNumber;

verus! {

/// A cursor context that holds nothing but the cursor and the current line,
/// for driving the line parsers on their own.
#[derive(Debug, PartialEq, Eq)]
pub struct MockCursorContext {
    pub cursor: usize,
    pub current_line: LineNumber,
}

impl CursorContext for MockCursorContext {
    open spec fn spec_cursor(&self) -> usize {
        self.cursor
    }

    open spec fn spec_line(&self) -> usize {
        self.current_line.value
    }

    fn cursor(&self) -> (r: usize) {
        self.cursor
    }

    fn move_cursor_forward(&mut self, n: usize) {
        self.cursor = self.cursor + n;
    }

    fn current_line(&self) -> (r: LineNumber) {
        self.current_line
    }

    fn increase_current_line(&mut self) {
        self.current_line.increase();
    }
}

} // verus!
