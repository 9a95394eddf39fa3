use vstd::prelude::*;

use crate::common::{CR, LF, SPACE};

use crate::events::NewLine;

use super::types::{ctx_fits, CursorContext};

pub mod global_phase;
pub mod normal;
pub mod verbatim;

verus! {

/// What [parse_common_end] found at the cursor.
pub enum ParseCommonEndOutput {
    /// The line ends here.
    Ended(CommonEnd),
    /// A space, not consumed.
    NoneButMetSpace,
    /// Some other byte, not consumed.
    Other(u8),
}

/// The ways in which every kind of line ends.
pub enum CommonEnd {
    Eof,
    NewLine(NewLine),
}

/// The length of the line break at `i` (CR, LF or CRLF), or 0 if there is none.
pub open spec fn line_break_len(s: Seq<u8>, i: int) -> int {
    if 0 <= i < s.len() && (s[i] == 13u8 || s[i] == 10u8) {
        if s[i] == 13u8 && i + 1 < s.len() && s[i + 1] == 10u8 {
            2
        } else {
            1
        }
    } else {
        0
    }
}

/// Checks whether the line ends at the cursor: at the end of the input, or at a
/// line break, which is then consumed.
pub fn parse_common_end<TCtx: CursorContext>(input: &[u8], ctx: &mut TCtx, char: Option<u8>) -> (r:
    ParseCommonEndOutput)
    requires
        ctx_fits(old(ctx), input@.len() as int),
        char == (if old(ctx).spec_cursor() < input@.len() {
            Some(input@[old(ctx).spec_cursor() as int])
        } else {
            None::<u8>
        }),
    ensures
        ctx_fits(final(ctx), input@.len() as int),
        match r {
            ParseCommonEndOutput::Ended(CommonEnd::Eof) => {
                &&& old(ctx).spec_cursor() == input@.len()
                &&& *final(ctx) == *old(ctx)
            },
            ParseCommonEndOutput::Ended(CommonEnd::NewLine(nl)) => {
                let c = old(ctx).spec_cursor() as int;
                &&& line_break_len(input@, c) > 0
                &&& final(ctx).spec_cursor() == c + line_break_len(input@, c)
                &&& final(ctx).spec_line() == old(ctx).spec_line() + 1
                &&& nl.line_after.value == final(ctx).spec_line()
            },
            ParseCommonEndOutput::NoneButMetSpace => {
                &&& old(ctx).spec_cursor() < input@.len()
                &&& input@[old(ctx).spec_cursor() as int] == 32u8
                &&& *final(ctx) == *old(ctx)
            },
            ParseCommonEndOutput::Other(c) => {
                &&& old(ctx).spec_cursor() < input@.len()
                &&& c == input@[old(ctx).spec_cursor() as int]
                &&& c != 32u8 && c != 13u8 && c != 10u8
                &&& *final(ctx) == *old(ctx)
            },
        },
{
    let len = input.len();
    let c = match char {
        Some(c) => c,
        None => {
            return ParseCommonEndOutput::Ended(CommonEnd::Eof);
        },
    };
    if c == CR || c == LF {
        ctx.increase_current_line();
        ctx.move_cursor_forward(1);
        if c == CR && ctx.cursor() < len && input[ctx.cursor()] == LF {
            ctx.move_cursor_forward(1);
        }
        ParseCommonEndOutput::Ended(CommonEnd::NewLine(NewLine { line_after: ctx.current_line() }))
    } else if c == SPACE {
        ParseCommonEndOutput::NoneButMetSpace
    } else {
        ParseCommonEndOutput::Other(c)
    }
}

} // verus!
