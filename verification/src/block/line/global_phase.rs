use vstd::prelude::*;

use crate::common::{BACKTICK, CR, GT, LF, LT, PERCENT, SPACE};

use core::ops::Range;

use crate::block::types::{ctx_fits, CursorContext, YieldContext};
use crate::block::utils::{count_continuous_character, run_len, lemma_run_len_bounded};
use crate::events::{BlockEvent, VerbatimEscaping};

verus! {

/// What [parse] found.
#[derive(Debug, PartialEq, Eq)]
pub enum Output {
    VerbatimEscaping(VerbatimEscaping),
    /// Nothing to output (as after a comment).
    Nothing,
}

/// The number of backticks that end right before `p`, not counting any before
/// `lo`.
pub open spec fn backticks_before(s: Seq<u8>, lo: int, p: int) -> nat
    decreases p - lo,
{
    if lo < p && p <= s.len() && s[p - 1] == 96u8 {
        1 + backticks_before(s, lo, p - 1)
    } else {
        0
    }
}

/// `p` is a `>` that closes a verbatim escaping opened with `backticks`
/// backticks, whose content is scanned from `lo` on.
pub open spec fn is_closing_at(s: Seq<u8>, lo: int, backticks: nat, p: int) -> bool {
    &&& lo <= p < s.len()
    &&& s[p] == 62u8
    &&& backticks_before(s, lo, p) == backticks
}

/// The first closing `>` at or after `from`.
pub open spec fn first_closing(s: Seq<u8>, lo: int, backticks: nat, from: int) -> Option<int>
    decreases s.len() - from,
{
    if from < 0 || from >= s.len() {
        None
    } else if is_closing_at(s, lo, backticks, from) {
        Some(from)
    } else {
        first_closing(s, lo, backticks, from + 1)
    }
}

/// The byte at `q` begins a line break that is counted while scanning from
/// `lo`: a CR, or an LF that does not follow a CR scanned from `lo`.
pub open spec fn counts_as_line_break(s: Seq<u8>, lo: int, q: int) -> bool {
    &&& 0 <= q < s.len()
    &&& (s[q] == 13u8 || (s[q] == 10u8 && !(q > lo && s[q - 1] == 13u8)))
}

/// The number of line breaks counted in `[lo, hi)`.
pub open spec fn line_breaks(s: Seq<u8>, lo: int, hi: int) -> nat
    decreases hi - lo,
{
    if hi <= lo {
        0
    } else {
        line_breaks(s, lo, hi - 1) + if counts_as_line_break(s, lo, hi - 1) {
            1nat
        } else {
            0nat
        }
    }
}

/// Where the content of a verbatim escaping begins, when its opening `<`
/// and backticks end right before `c0`: after the run of further backticks.
pub open spec fn ve_start(s: Seq<u8>, c0: int) -> int {
    c0 + run_len(s, 96u8, c0)
}

/// The number of backticks that close a verbatim escaping whose opening ends
/// right before `c0`.
pub open spec fn ve_backticks(s: Seq<u8>, c0: int) -> nat {
    1 + run_len(s, 96u8, c0)
}

/// Where the scan for the closing part begins: the first byte of the content
/// is taken as it is.
pub open spec fn ve_scan_start(s: Seq<u8>, c0: int) -> int {
    if ve_start(s, c0) < s.len() {
        ve_start(s, c0) + 1
    } else {
        ve_start(s, c0)
    }
}

/// The content begins with a space.
pub open spec fn ve_leading_space(s: Seq<u8>, c0: int) -> bool {
    ve_start(s, c0) < s.len() && s[ve_start(s, c0)] == 32u8
}

/// The range of the content of a verbatim escaping whose opening ends right
/// before `c0`; one space at each edge is left out where the content is at
/// least two bytes long, and only the leading one where it is never closed.
pub open spec fn ve_content(s: Seq<u8>, c0: int) -> (int, int) {
    let start = ve_start(s, c0);
    match first_closing(s, ve_scan_start(s, c0), ve_backticks(s, c0), ve_scan_start(s, c0)) {
        Some(p) => {
            let end = p - ve_backticks(s, c0);
            if end - start >= 2 {
                (
                    if ve_leading_space(s, c0) {
                        start + 1
                    } else {
                        start
                    },
                    if s[end - 1] == 32u8 {
                        end - 1
                    } else {
                        end
                    },
                )
            } else {
                (start, end)
            }
        },
        None => (
            if ve_leading_space(s, c0) {
                start + 1
            } else {
                start
            },
            s.len() as int,
        ),
    }
}

/// Where the cursor stands after a verbatim escaping whose opening ends right
/// before `c0`.
pub open spec fn ve_cursor_after(s: Seq<u8>, c0: int) -> int {
    match first_closing(s, ve_scan_start(s, c0), ve_backticks(s, c0), ve_scan_start(s, c0)) {
        Some(p) => p + 1,
        None => s.len() as int,
    }
}

/// The number of line breaks inside a verbatim escaping whose opening ends
/// right before `c0`.
pub open spec fn ve_line_breaks(s: Seq<u8>, c0: int) -> nat {
    let lo = ve_scan_start(s, c0);
    match first_closing(s, lo, ve_backticks(s, c0), lo) {
        Some(p) => line_breaks(s, lo, p),
        None => line_breaks(s, lo, s.len() as int),
    }
}

proof fn lemma_line_breaks_bounded(s: Seq<u8>, lo: int, hi: int)
    requires
        lo <= hi,
    ensures
        line_breaks(s, lo, hi) <= hi - lo,
    decreases hi - lo,
{
    if hi > lo {
        lemma_line_breaks_bounded(s, lo, hi - 1);
    }
}

proof fn lemma_first_closing_skip(s: Seq<u8>, lo: int, b: nat, from: int)
    requires
        0 <= from,
        forall|p: int| from <= p < s.len() ==> !is_closing_at(s, lo, b, p),
    ensures
        first_closing(s, lo, b, from) is None,
    decreases s.len() - from,
{
    if from < s.len() {
        lemma_first_closing_skip(s, lo, b, from + 1);
    }
}

proof fn lemma_first_closing_from(s: Seq<u8>, lo: int, b: nat, from: int, p: int)
    requires
        0 <= from <= p,
        forall|q: int| from <= q < p ==> !is_closing_at(s, lo, b, q),
    ensures
        first_closing(s, lo, b, from) == first_closing(s, lo, b, p),
    decreases p - from,
{
    if from < p {
        lemma_first_closing_from(s, lo, b, from + 1, p);
    }
}

proof fn lemma_first_closing_is_closing(s: Seq<u8>, lo: int, b: nat, from: int)
    requires
        0 <= from,
    ensures
        first_closing(s, lo, b, from) matches Some(p) ==> from <= p && is_closing_at(s, lo, b, p),
    decreases s.len() - from,
{
    if from < s.len() && !is_closing_at(s, lo, b, from) {
        lemma_first_closing_is_closing(s, lo, b, from + 1);
    }
}

proof fn lemma_backticks_before_bounded(s: Seq<u8>, lo: int, p: int)
    ensures
        backticks_before(s, lo, p) <= if p >= lo {
            p - lo
        } else {
            0
        },
    decreases p - lo,
{
    if lo < p && p <= s.len() && s[p - 1] == 96u8 {
        lemma_backticks_before_bounded(s, lo, p - 1);
    }
}

/// The content of a verbatim escaping lies within the input.
pub proof fn lemma_ve_content_within(s: Seq<u8>, c0: int)
    requires
        0 <= c0 <= s.len(),
    ensures
        0 <= ve_content(s, c0).0 <= ve_content(s, c0).1 <= s.len(),
{
    lemma_run_len_bounded(s, 96u8, c0);
    let lo = ve_scan_start(s, c0);
    let b = ve_backticks(s, c0);
    lemma_first_closing_is_closing(s, lo, b, lo);
    match first_closing(s, lo, b, lo) {
        Some(p) => {
            lemma_backticks_before_bounded(s, lo, p);
        },
        None => {},
    }
}

/// The content of a verbatim escaping lies between the end of its opening
/// and where the cursor stands after it.
pub proof fn lemma_ve_content_before_cursor(s: Seq<u8>, c0: int)
    requires
        0 <= c0 <= s.len(),
    ensures
        c0 <= ve_content(s, c0).0 <= ve_content(s, c0).1 <= ve_cursor_after(s, c0),
{
    lemma_ve_content_within(s, c0);
    lemma_run_len_bounded(s, 96u8, c0);
}

/// Parses the rest of a verbatim escaping whose opening `<` and first backtick
/// have been consumed.
pub fn parse_verbatim_escaping<TCtx: CursorContext>(input: &[u8], ctx: &mut TCtx) -> (r:
    VerbatimEscaping)
    requires
        ctx_fits(old(ctx), input@.len() as int),
    ensures
        ctx_fits(final(ctx), input@.len() as int),
        final(ctx).spec_cursor() >= old(ctx).spec_cursor(),
        ({
            let s = input@;
            let c0 = old(ctx).spec_cursor() as int;
            &&& final(ctx).spec_cursor() == ve_cursor_after(s, c0)
            &&& final(ctx).spec_line() == old(ctx).spec_line() + ve_line_breaks(s, c0)
            &&& r.content.start == ve_content(s, c0).0
            &&& r.content.end == ve_content(s, c0).1
            &&& r.is_closed_forcedly == first_closing(
                s,
                ve_scan_start(s, c0),
                ve_backticks(s, c0),
                ve_scan_start(s, c0),
            ) is None
            &&& r.line_after.value == final(ctx).spec_line()
        }),
{
    let ghost s = input@;
    let ghost c0 = old(ctx).spec_cursor() as int;
    let ghost line0 = old(ctx).spec_line() as int;
    let len = input.len();
    let count = count_continuous_character(input, BACKTICK, ctx.cursor());
    ctx.move_cursor_forward(count);
    let backticks = 1 + count;

    let mut start = ctx.cursor();
    let has_leading_space = if start < input.len() {
        let c = input[start];
        ctx.move_cursor_forward(1);
        c == SPACE
    } else {
        false
    };
    let ghost lo = ctx.spec_cursor() as int;
    let ghost b = backticks as nat;
    assert(lo == ve_scan_start(s, c0));
    assert(b == ve_backticks(s, c0));

    let mut continuous_backticks: usize = 0;
    while ctx.cursor() < input.len()
        invariant
            s == input@,
            lo == ve_scan_start(s, c0),
            b == backticks,
            b == ve_backticks(s, c0),
            start == ve_start(s, c0),
            has_leading_space == ve_leading_space(s, c0),
            start <= lo <= ctx.spec_cursor() <= s.len(),
            lo <= s.len(),
            continuous_backticks == backticks_before(s, lo, ctx.spec_cursor() as int),
            forall|p: int| lo <= p < ctx.spec_cursor() ==> !is_closing_at(s, lo, b, p),
            ctx.spec_line() == line0 + line_breaks(s, lo, ctx.spec_cursor() as int),
            line0 + (s.len() - c0) < usize::MAX,
            c0 <= lo,
            len == s.len(),
            c0 == old(ctx).spec_cursor(),
            line0 == old(ctx).spec_line(),
            ctx.spec_cursor() > lo && ctx.spec_cursor() < s.len() && s[ctx.spec_cursor() - 1] == CR
                ==> s[ctx.spec_cursor() as int] != LF,
        decreases s.len() - ctx.spec_cursor(),
    {
        let cur = ctx.cursor();
        proof {
            lemma_line_breaks_bounded(s, lo, cur as int);
            lemma_backticks_before_bounded(s, lo, cur as int);
        }
        let c = input[cur];
        if c == BACKTICK {
            continuous_backticks = continuous_backticks + 1;
            assert(!counts_as_line_break(s, lo, cur as int));
            assert(line_breaks(s, lo, cur + 1) == line_breaks(s, lo, cur as int));
        } else if c == GT && continuous_backticks == backticks {
            assert(is_closing_at(s, lo, b, cur as int));
            proof {
                lemma_first_closing_from(s, lo, b, lo, cur as int);
                assert(first_closing(s, lo, b, cur as int) == Some(cur as int));
                assert(ve_cursor_after(s, c0) == cur + 1);
                assert(ve_line_breaks(s, c0) == line_breaks(s, lo, cur as int));
            }
            let mut end = cur - continuous_backticks;
            ctx.move_cursor_forward(1);
            if end - start >= 2 {
                if has_leading_space {
                    start = start + 1;
                }
                if input[end - 1] == SPACE {
                    end = end - 1;
                }
            }
            assert(ve_content(s, c0).0 == start as int);
            assert(ve_content(s, c0).1 == end as int);
            return VerbatimEscaping {
                content: Range { start, end },
                is_closed_forcedly: false,
                line_after: ctx.current_line(),
            };
        } else if c == CR || c == LF {
            assert(counts_as_line_break(s, lo, cur as int));
            ctx.increase_current_line();
            if c == CR && len - cur > 1 && input[cur + 1] == LF {
                ctx.move_cursor_forward(1);
                assert(!counts_as_line_break(s, lo, cur + 1));
                assert(!is_closing_at(s, lo, b, cur + 1));
                assert(line_breaks(s, lo, cur + 1) == line_breaks(s, lo, cur as int) + 1);
                assert(line_breaks(s, lo, cur + 2) == line_breaks(s, lo, cur + 1));
            } else {
                assert(line_breaks(s, lo, cur + 1) == line_breaks(s, lo, cur as int) + 1);
            }
            continuous_backticks = 0;
        } else {
            continuous_backticks = 0;
            assert(!counts_as_line_break(s, lo, cur as int));
            assert(line_breaks(s, lo, cur + 1) == line_breaks(s, lo, cur as int));
        }
        assert(!is_closing_at(s, lo, b, cur as int));
        ctx.move_cursor_forward(1);
    }
    proof {
        lemma_first_closing_skip(s, lo, b, lo);
        lemma_line_breaks_bounded(s, lo, s.len() as int);
    }
    if has_leading_space && start < input.len() {
        start = start + 1;
    }
    VerbatimEscaping {
        content: Range { start, end: input.len() },
        is_closed_forcedly: true,
        line_after: ctx.current_line(),
    }
}

/// Where a comment ends that is open `depth` deep at `i`, whose line number
/// there is `line`, together with the line number at its end. Inside it,
/// comments nest and verbatim escapings are skipped as a whole.
pub open spec fn comment_scan(s: Seq<u8>, i: int, depth: nat, line: int) -> (int, int)
    decreases s.len() - i, depth,
{
    if depth == 0 || i < 0 || i >= s.len() {
        (i, line)
    } else if s[i] == LT && i + 1 < s.len() && s[i + 1] == PERCENT {
        comment_scan(
            s,
            i + 2,
            if depth < usize::MAX {
                depth + 1
            } else {
                depth
            },
            line,
        )
    } else if s[i] == LT && i + 1 < s.len() && s[i + 1] == BACKTICK {
        let j = ve_cursor_after(s, i + 2);
        if i < j <= s.len() {
            comment_scan(s, j, depth, line + ve_line_breaks(s, i + 2))
        } else {
            (i, line)
        }
    } else if s[i] == PERCENT && i + 1 < s.len() && s[i + 1] == GT {
        comment_scan(s, i + 2, (depth - 1) as nat, line)
    } else if s[i] == CR || s[i] == LF {
        if s[i] == CR && i + 2 < s.len() && s[i + 2] == LF {
            comment_scan(s, i + 2, depth, line + 1)
        } else {
            comment_scan(s, i + 1, depth, line + 1)
        }
    } else {
        comment_scan(s, i + 1, depth, line)
    }
}

/// A comment ends after where it begins, within the input, and its line
/// breaks only add to the line number.
pub proof fn lemma_comment_scan_bounds(s: Seq<u8>, i: int, depth: nat, line: int)
    requires
        0 <= i <= s.len(),
    ensures
        i <= comment_scan(s, i, depth, line).0 <= s.len(),
        line <= comment_scan(s, i, depth, line).1,
        comment_scan(s, i, depth, line).1 - line <= comment_scan(s, i, depth, line).0 - i,
    decreases s.len() - i, depth,
{
    if depth == 0 || i >= s.len() {
    } else if s[i] == LT && i + 1 < s.len() && s[i + 1] == PERCENT {
        lemma_comment_scan_bounds(
            s,
            i + 2,
            if depth < usize::MAX {
                depth + 1
            } else {
                depth
            },
            line,
        );
    } else if s[i] == LT && i + 1 < s.len() && s[i + 1] == BACKTICK {
        let j = ve_cursor_after(s, i + 2);
        if i < j <= s.len() {
            lemma_ve_line_breaks_bounded(s, i + 2);
            lemma_comment_scan_bounds(s, j, depth, line + ve_line_breaks(s, i + 2));
        }
    } else if s[i] == PERCENT && i + 1 < s.len() && s[i + 1] == GT {
        lemma_comment_scan_bounds(s, i + 2, (depth - 1) as nat, line);
    } else if s[i] == CR || s[i] == LF {
        if s[i] == CR && i + 2 < s.len() && s[i + 2] == LF {
            lemma_comment_scan_bounds(s, i + 2, depth, line + 1);
        } else {
            lemma_comment_scan_bounds(s, i + 1, depth, line + 1);
        }
    } else {
        lemma_comment_scan_bounds(s, i + 1, depth, line);
    }
}

/// The line breaks of a verbatim escaping are no more than the bytes it
/// spans.
pub proof fn lemma_ve_line_breaks_bounded(s: Seq<u8>, c0: int)
    requires
        0 <= c0 <= s.len(),
    ensures
        c0 <= ve_cursor_after(s, c0) <= s.len(),
        ve_line_breaks(s, c0) <= ve_cursor_after(s, c0) - c0,
{
    lemma_run_len_bounded(s, 96u8, c0);
    let lo = ve_scan_start(s, c0);
    let b = ve_backticks(s, c0);
    lemma_first_closing_is_closing(s, lo, b, lo);
    match first_closing(s, lo, b, lo) {
        Some(p) => {
            lemma_line_breaks_bounded(s, lo, p);
        },
        None => {
            lemma_line_breaks_bounded(s, lo, s.len() as int);
        },
    }
}

/// Parses the rest of a comment whose opening `<%` has been consumed. Comments
/// nest, and verbatim escapings inside them are skipped as a whole.
pub fn parse_comment<TCtx: CursorContext>(input: &[u8], ctx: &mut TCtx)
    requires
        ctx_fits(old(ctx), input@.len() as int),
    ensures
        ctx_fits(final(ctx), input@.len() as int),
        old(ctx).spec_cursor() <= final(ctx).spec_cursor(),
        old(ctx).spec_line() <= final(ctx).spec_line(),
        (final(ctx).spec_cursor() as int, final(ctx).spec_line() as int) == comment_scan(
            input@,
            old(ctx).spec_cursor() as int,
            1,
            old(ctx).spec_line() as int,
        ),
{
    let len = input.len();
    let mut depth: usize = 1;
    let ghost expected = comment_scan(input@, old(ctx).spec_cursor() as int, 1, old(ctx).spec_line() as int);
    proof {
        lemma_comment_scan_bounds(input@, old(ctx).spec_cursor() as int, 1, old(ctx).spec_line() as int);
    }
    while depth > 0
        invariant
            ctx_fits(ctx, input@.len() as int),
            old(ctx).spec_cursor() <= ctx.spec_cursor(),
            old(ctx).spec_line() <= ctx.spec_line(),
            len == input@.len(),
            expected == comment_scan(input@, ctx.spec_cursor() as int, depth as nat, ctx.spec_line() as int),
            expected == comment_scan(input@, old(ctx).spec_cursor() as int, 1, old(ctx).spec_line() as int),
        ensures
            ctx_fits(ctx, input@.len() as int),
            old(ctx).spec_cursor() <= ctx.spec_cursor(),
            old(ctx).spec_line() <= ctx.spec_line(),
            expected == (ctx.spec_cursor() as int, ctx.spec_line() as int),
        decreases input@.len() - ctx.spec_cursor(), depth,
    {
        let cur = ctx.cursor();
        if cur >= input.len() {
            break;
        }
        let c = input[cur];
        if c == LT {
            if len - cur > 1 && input[cur + 1] == PERCENT {
                ctx.move_cursor_forward(2);
                if depth < usize::MAX {
                    depth = depth + 1;
                }
            } else if len - cur > 1 && input[cur + 1] == BACKTICK {
                ctx.move_cursor_forward(2);
                parse_verbatim_escaping(input, ctx);
                proof {
                    let s = input@;
                    let c0 = cur + 2;
                    lemma_first_closing_is_closing(s, ve_scan_start(s, c0), ve_backticks(s, c0), ve_scan_start(s, c0));
                    lemma_run_len_bounded(s, 96u8, c0);
                    lemma_ve_line_breaks_bounded(s, c0);
                }
            } else {
                ctx.move_cursor_forward(1);
            }
        } else if c == PERCENT && len - cur > 1 && input[cur + 1] == GT {
            ctx.move_cursor_forward(2);
            depth = depth - 1;
        } else if c == CR || c == LF {
            ctx.increase_current_line();
            ctx.move_cursor_forward(1);
            if c == CR && len - ctx.cursor() > 1 && input[ctx.cursor() + 1] == LF {
                ctx.move_cursor_forward(1);
            }
        } else {
            ctx.move_cursor_forward(1);
        }
    }
}

/// Parses the global-phase syntax (verbatim escaping or comment) that may
/// begin at the cursor, whose byte is `first_char`.
pub fn parse<TCtx: CursorContext>(input: &[u8], ctx: &mut TCtx, first_char: u8) -> (r: Option<
    Output,
>)
    requires
        ctx_fits(old(ctx), input@.len() as int),
        old(ctx).spec_cursor() < input@.len(),
        input@[old(ctx).spec_cursor() as int] == first_char,
    ensures
        ctx_fits(final(ctx), input@.len() as int),
        old(ctx).spec_line() <= final(ctx).spec_line(),
        ({
            let s = input@;
            let c = old(ctx).spec_cursor() as int;
            let is_ve = first_char == 60u8 && c + 1 < s.len() && s[c + 1] == 96u8;
            let is_comment = first_char == 60u8 && c + 1 < s.len() && s[c + 1] == 37u8;
            &&& (!is_ve && !is_comment) ==> (r is None && *final(ctx) == *old(ctx))
            &&& is_ve ==> (r matches Some(Output::VerbatimEscaping(v)) && {
                &&& final(ctx).spec_cursor() >= c + 2
                &&& final(ctx).spec_cursor() == ve_cursor_after(s, c + 2)
                &&& final(ctx).spec_line() == old(ctx).spec_line() + ve_line_breaks(s, c + 2)
                &&& v.content.start == ve_content(s, c + 2).0
                &&& v.content.end == ve_content(s, c + 2).1
                &&& v.is_closed_forcedly == first_closing(
                    s,
                    ve_scan_start(s, c + 2),
                    ve_backticks(s, c + 2),
                    ve_scan_start(s, c + 2),
                ) is None
                &&& v.line_after.value == final(ctx).spec_line()
            })
            &&& is_comment ==> (r matches Some(Output::Nothing) && final(ctx).spec_cursor() >= c + 2
                && (final(ctx).spec_cursor() as int, final(ctx).spec_line() as int) == comment_scan(
                s,
                c + 2,
                1,
                old(ctx).spec_line() as int,
            ))
        }),
{
    if first_char != LT {
        return None;
    }
    let len = input.len();
    let cur = ctx.cursor();
    if cur + 1 >= len {
        return None;
    }
    let second = input[cur + 1];
    if second == BACKTICK {
        ctx.move_cursor_forward(2);
        let verbatim_escaping = parse_verbatim_escaping(input, ctx);
        Some(Output::VerbatimEscaping(verbatim_escaping))
    } else if second == PERCENT {
        ctx.move_cursor_forward(2);
        parse_comment(input, ctx);
        Some(Output::Nothing)
    } else {
        None
    }
}

/// Yields a verbatim escaping as a block event.
pub fn process_verbatim_escaping<TCtx: YieldContext>(
    ctx: &mut TCtx,
    verbatim_escaping: VerbatimEscaping,
)
    ensures
        final(ctx).spec_to_yield() == old(ctx).spec_to_yield().push(
            BlockEvent::VerbatimEscaping(verbatim_escaping),
        ),
{
    ctx.yield_event(BlockEvent::VerbatimEscaping(verbatim_escaping))
}

} // verus!
