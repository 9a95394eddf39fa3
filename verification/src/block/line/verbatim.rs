use vstd::prelude::*;

use core::ops::Range;

use crate::block::line::global_phase::{
    comment_scan,
    self, first_closing, ve_backticks, ve_content, ve_cursor_after, ve_line_breaks, ve_scan_start,
};
use crate::block::line::{line_break_len, parse_common_end, CommonEnd, ParseCommonEndOutput};
use crate::block::types::{ctx_fits, CursorContext};
use crate::block::utils::{count_continuous_character, lemma_run_len_bounded, run_len};
use crate::common::{BACKTICK, CR, LF, LT, PERCENT, SPACE};
use crate::events::{NewLine, VerbatimEscaping};

verus! {

/// When a verbatim line ends, besides at the end of the line.
pub struct EndCondition {
    pub on_fence: Option<Fence>,
}

/// A fence: a run of at least `minimum_count` bytes `character` at the
/// beginning of a line.
#[derive(Clone, Copy)]
pub struct Fence {
    pub character: u8,
    pub minimum_count: usize,
}

/// How a verbatim line ended.
#[derive(Debug, PartialEq, Eq)]
pub enum End {
    Eof,
    NewLine(NewLine),
    VerbatimEscaping(VerbatimEscaping),
    Fence,
    /// A comment was skipped; the line goes on.
    Nothing,
}

impl End {
    /// Whether the line ended at a verbatim escaping.
    pub fn is_verbatim_escaping(&self) -> (r: bool)
        ensures
            r == (*self is VerbatimEscaping),
    {
        match self {
            End::VerbatimEscaping(_) => true,
            _ => false,
        }
    }
}

/// Marks that the line is parsed from its beginning, where up to `indent`
/// spaces are not part of the content.
#[derive(Clone, Copy)]
pub struct AtLineBeginning {
    pub indent: usize,
}

/// Where the content of a verbatim line begins, given the cursor `c` after
/// `spaces_before` spaces.
pub open spec fn verbatim_start(c: int, spaces_before: int, at_line_beginning: Option<AtLineBeginning>) -> int {
    match at_line_beginning {
        Some(a) => if a.indent < spaces_before {
            c - (spaces_before - a.indent)
        } else {
            c
        },
        None => c - spaces_before,
    }
}

/// A verbatim escaping begins at `i`.
pub open spec fn is_ve_opening(s: Seq<u8>, i: int) -> bool {
    0 <= i && i + 1 < s.len() && s[i] == LT && s[i + 1] == BACKTICK
}

/// A comment begins at `i`.
pub open spec fn is_comment_opening(s: Seq<u8>, i: int) -> bool {
    0 <= i && i + 1 < s.len() && s[i] == LT && s[i + 1] == PERCENT
}

/// What a line parser reports of a verbatim escaping that begins at `i`.
pub open spec fn ve_matches(s: Seq<u8>, i: int, v: VerbatimEscaping, cursor_after: int) -> bool {
    &&& is_ve_opening(s, i)
    &&& cursor_after == ve_cursor_after(s, i + 2)
    &&& v.content.start == ve_content(s, i + 2).0
    &&& v.content.end == ve_content(s, i + 2).1
    &&& v.is_closed_forcedly == first_closing(
        s,
        ve_scan_start(s, i + 2),
        ve_backticks(s, i + 2),
        ve_scan_start(s, i + 2),
    ) is None
}

/// A fence can still begin at `i`: the line is parsed from its beginning,
/// and no byte of the fence has been met since.
pub open spec fn fence_may_begin(
    s: Seq<u8>,
    c0: int,
    at_line_beginning: Option<AtLineBeginning>,
    cond: EndCondition,
    i: int,
) -> bool {
    &&& at_line_beginning is Some
    &&& cond.on_fence matches Some(f) ==> forall|j: int| c0 <= j < i ==> s[j] != f.character
}

/// The verbatim line ends at `i`: at the end of the input or a line break,
/// at a verbatim escaping or a comment, or at a fence where one can begin.
pub open spec fn verbatim_stops_at(s: Seq<u8>, i: int, cond: EndCondition, may_fence: bool) -> bool {
    ||| i >= s.len()
    ||| s[i] == CR || s[i] == LF
    ||| is_ve_opening(s, i) || is_comment_opening(s, i)
    ||| (cond.on_fence matches Some(f) && may_fence && s[i] == f.character && run_len(
        s,
        f.character,
        i,
    ) >= f.minimum_count)
}

/// The verbatim line does not end anywhere from `c0` up to `p`.
pub open spec fn verbatim_no_stop_before(
    s: Seq<u8>,
    c0: int,
    at_line_beginning: Option<AtLineBeginning>,
    cond: EndCondition,
    p: int,
) -> bool {
    forall|i: int|
        c0 <= i < p ==> !#[trigger] verbatim_stops_at(
            s,
            i,
            cond,
            fence_may_begin(s, c0, at_line_beginning, cond, i),
        )
}

/// The verbatim line parsed from the cursor `c0` on line `line0` has the
/// content `range` and ended as `end`, leaving the cursor at `cursor` on line
/// `line`.
pub open spec fn verbatim_parsed(
    s: Seq<u8>,
    c0: int,
    line0: int,
    cond: EndCondition,
    spaces_before: int,
    alb: Option<AtLineBeginning>,
    range: Range<usize>,
    end: End,
    cursor: int,
    line: int,
) -> bool {
    &&& range.start == verbatim_start(c0, spaces_before, alb)
    &&& c0 <= range.end <= cursor <= s.len()
    &&& forall|i: int| c0 <= i < range.end ==> s[i] != CR && s[i] != LF
    &&& (c0 < s.len() ==> cursor > c0)
    &&& verbatim_no_stop_before(s, c0, alb, cond, range.end as int)
    &&& match end {
        End::Eof => {
            &&& range.end == s.len()
            &&& cursor == s.len()
            &&& line == line0
        },
        End::NewLine(nl) => {
            &&& line_break_len(s, range.end as int) > 0
            &&& cursor == range.end + line_break_len(s, range.end as int)
            &&& line == line0 + 1
            &&& nl.line_after.value == line
        },
        End::VerbatimEscaping(v) => {
            &&& ve_matches(s, range.end as int, v, cursor as int)
            &&& line == line0 + ve_line_breaks(s, range.end + 2)
            &&& v.line_after.value == line
        },
        End::Fence => {
            &&& cond.on_fence matches Some(f) && {
                &&& s[range.end as int] == f.character
                &&& run_len(s, f.character, range.end as int) >= f.minimum_count
                &&& cursor == range.end + run_len(s, f.character, range.end as int)
            }
            &&& fence_may_begin(s, c0, alb, cond, range.end as int)
            &&& line == line0
        },
        End::Nothing => {
            &&& is_comment_opening(s, range.end as int)
            &&& (cursor as int, line as int)
                == comment_scan(s, range.end + 2, 1, line0 as int)
        },
    }
}

/// Where a verbatim line ends is a place where it stops.
proof fn lemma_verbatim_end_stops(
    s: Seq<u8>,
    c0: int,
    line0: int,
    cond: EndCondition,
    spaces_before: int,
    alb: Option<AtLineBeginning>,
    range: Range<usize>,
    end: End,
    cursor: int,
    line: int,
)
    requires
        verbatim_parsed(s, c0, line0, cond, spaces_before, alb, range, end, cursor, line),
    ensures
        verbatim_stops_at(
            s,
            range.end as int,
            cond,
            fence_may_begin(s, c0, alb, cond, range.end as int),
        ),
{
}

/// A verbatim line has one reading: where the fence, when one is looked for,
/// is made of a byte that is no line break and no `<`, and of at least one
/// such byte, two parses of the line from the same place agree on the
/// content, on how the line ended, on the cursor and on the line number.
pub proof fn lemma_verbatim_parsed_unique(
    s: Seq<u8>,
    c0: int,
    line0: int,
    cond: EndCondition,
    spaces_before: int,
    alb: Option<AtLineBeginning>,
    range1: Range<usize>,
    end1: End,
    cursor1: int,
    line1: int,
    range2: Range<usize>,
    end2: End,
    cursor2: int,
    line2: int,
)
    requires
        cond.on_fence matches Some(f) ==> f.character != CR && f.character != LF
            && f.character != LT && f.minimum_count > 0,
        verbatim_parsed(s, c0, line0, cond, spaces_before, alb, range1, end1, cursor1, line1),
        verbatim_parsed(s, c0, line0, cond, spaces_before, alb, range2, end2, cursor2, line2),
    ensures
        range1 == range2,
        end1 == end2,
        cursor1 == cursor2,
        line1 == line2,
{
    lemma_verbatim_end_stops(s, c0, line0, cond, spaces_before, alb, range1, end1, cursor1, line1);
    lemma_verbatim_end_stops(s, c0, line0, cond, spaces_before, alb, range2, end2, cursor2, line2);
    let p1 = range1.end as int;
    let p2 = range2.end as int;
    if p1 < p2 {
        assert(!verbatim_stops_at(s, p1, cond, fence_may_begin(s, c0, alb, cond, p1)));
    }
    if p2 < p1 {
        assert(!verbatim_stops_at(s, p2, cond, fence_may_begin(s, c0, alb, cond, p2)));
    }
    assert(p1 == p2);
    assert(range1 == range2);
    match end1 {
        End::Eof => {},
        End::NewLine(nl1) => {
            assert(end2 is NewLine);
            assert(nl1 == end2->NewLine_0);
        },
        End::VerbatimEscaping(v1) => {
            assert(end2 is VerbatimEscaping);
            assert(v1 == end2->VerbatimEscaping_0);
        },
        End::Fence => {},
        End::Nothing => {},
    }
}

/// Parses the content of a verbatim line (as in a code block) up to where it
/// ends. The spaces that the caller has consumed right before the cursor are
/// counted by `spaces_before`; at the beginning of a line up to `indent` of
/// them are not part of the content.
pub fn parse<TCtx: CursorContext>(
    input: &[u8],
    ctx: &mut TCtx,
    end_condition: EndCondition,
    spaces_before: usize,
    at_line_beginning: Option<AtLineBeginning>,
) -> (r: (Range<usize>, End))
    requires
        ctx_fits(old(ctx), input@.len() as int),
        spaces_before <= old(ctx).spec_cursor(),
        end_condition.on_fence matches Some(f) ==> f.character != CR && f.character != LF
            && f.character != LT && f.character != SPACE,
    ensures
        ctx_fits(final(ctx), input@.len() as int),
        old(ctx).spec_line() <= final(ctx).spec_line(),
        verbatim_parsed(
            input@,
            old(ctx).spec_cursor() as int,
            old(ctx).spec_line() as int,
            end_condition,
            spaces_before as int,
            at_line_beginning,
            r.0,
            r.1,
            final(ctx).spec_cursor() as int,
            final(ctx).spec_line() as int,
        ),
{
    let ghost s = input@;
    let ghost c0 = old(ctx).spec_cursor() as int;
    let ghost line0 = old(ctx).spec_line() as int;
    let len = input.len();
    let start = match at_line_beginning {
        Some(a) => if a.indent < spaces_before {
            ctx.cursor() - (spaces_before - a.indent)
        } else {
            ctx.cursor()
        },
        None => ctx.cursor() - spaces_before,
    };
    let mut end = ctx.cursor();
    let mut alb = at_line_beginning;
    loop
        invariant
            s == input@,
            len == s.len(),
            c0 == old(ctx).spec_cursor(),
            line0 == old(ctx).spec_line(),
            start == verbatim_start(c0, spaces_before as int, at_line_beginning),
            ctx_fits(ctx, s.len() as int),
            c0 <= end == ctx.spec_cursor() <= s.len(),
            ctx.spec_line() == line0,
            forall|i: int| c0 <= i < end ==> s[i] != CR && s[i] != LF,
            alb is Some ==> at_line_beginning is Some,
            end_condition.on_fence is Some ==> (alb is Some) == fence_may_begin(
                s,
                c0,
                at_line_beginning,
                end_condition,
                end as int,
            ),
            verbatim_no_stop_before(s, c0, at_line_beginning, end_condition, end as int),
            end_condition.on_fence matches Some(f) ==> f.character != CR && f.character != LF
                && f.character != LT && f.character != SPACE,
        decreases s.len() - ctx.spec_cursor(),
    {
        let cur = ctx.cursor();
        let char = if cur < len {
            Some(input[cur])
        } else {
            None
        };
        let c = match parse_common_end(input, ctx, char) {
            ParseCommonEndOutput::Ended(CommonEnd::Eof) => {
                return (Range { start, end }, End::Eof);
            },
            ParseCommonEndOutput::Ended(CommonEnd::NewLine(new_line)) => {
                return (Range { start, end }, End::NewLine(new_line));
            },
            ParseCommonEndOutput::NoneButMetSpace => {
                ctx.move_cursor_forward(1);
                end = ctx.cursor();
                continue ;
            },
            ParseCommonEndOutput::Other(c) => c,
        };
        match global_phase::parse(input, ctx, c) {
            Some(global_phase::Output::VerbatimEscaping(v)) => {
                return (Range { start, end }, End::VerbatimEscaping(v));
            },
            Some(global_phase::Output::Nothing) => {
                return (Range { start, end }, End::Nothing);
            },
            None => {},
        }
        if let Some(f) = end_condition.on_fence {
            if alb.is_some() && c == f.character {
                let count = 1 + count_continuous_character(input, f.character, cur + 1);
                proof {
                    lemma_run_len_bounded(s, f.character, cur + 1);
                }
                ctx.move_cursor_forward(count);
                if count < f.minimum_count {
                    end = ctx.cursor();
                    alb = None;
                    continue ;
                }
                return (Range { start, end }, End::Fence);
            }
        }
        ctx.move_cursor_forward(1);
        end = ctx.cursor();
    }
}

} // verus!
