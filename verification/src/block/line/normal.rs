use vstd::prelude::*;

use core::ops::Range;

use crate::block::branch::braced::table::{self, spec_table_related_end_at, TableRelatedEnd};
use crate::block::line::global_phase::{self, comment_scan, ve_line_breaks};
use crate::block::line::verbatim::{is_comment_opening, is_ve_opening, ve_matches};
use crate::block::line::{line_break_len, parse_common_end, CommonEnd, ParseCommonEndOutput};
use crate::block::types::{ctx_fits, CursorContext};
use crate::block::utils::{count_continuous_character, lemma_run_len_bounded, run_len};
use crate::common::{CR, EXCLAMATION, LF, LT, PIPE, SPACE};
use crate::events::{NewLine, VerbatimEscaping};

verus! {

/// When a normal line ends, besides at the end of the line.
pub struct EndCondition {
    pub on_atx_closing: Option<AtxClosing>,
    pub on_table_related: Option<TableRelated>,
}

/// The closing part of a heading: a space, then exactly `count` bytes
/// `character`, then the end of the line.
#[derive(Clone, Copy)]
pub struct AtxClosing {
    pub character: u8,
    pub count: usize,
}

/// The line is inside a table, so table-related syntax ends it.
#[derive(Clone, Copy)]
pub struct TableRelated {
    pub is_caption_applicable: bool,
}

/// What precedes the cursor on the line.
#[derive(Clone, Copy)]
pub enum ContentBefore {
    /// A space, which the caller has consumed and which is not part of the
    /// content.
    Space,
    /// The next `n` bytes are already known to be content.
    NotSpace(usize),
}

/// How a normal line ended.
#[derive(Debug, PartialEq, Eq)]
pub enum End {
    Eof,
    NewLine(NewLine),
    VerbatimEscaping(VerbatimEscaping),
    TableRelated(TableRelatedEnd),
    /// A comment was skipped; the line goes on.
    Nothing,
}

impl End {
    /// Whether the line ended at a verbatim escaping.
    pub fn is_verbatim_escaping(&self) -> (r: bool)
        ensures
            r == (*self is VerbatimEscaping),
    {
        match self {
            End::VerbatimEscaping(_) => true,
            _ => false,
        }
    }

    /// Takes the line break out of an end that is one, leaving `Eof` behind.
    pub fn try_take_new_line(&mut self) -> (r: Option<NewLine>)
        ensures
            match *old(self) {
                End::NewLine(nl) => r == Some(nl) && *final(self) == End::Eof,
                _ => r is None && *final(self) == *old(self),
            },
    {
        match self {
            End::NewLine(nl) => {
                let nl = *nl;
                *self = End::Eof;
                Some(nl)
            },
            _ => None,
        }
    }
}

/// The number of bytes of content that the caller declares.
pub open spec fn content_before_len(content_before: ContentBefore) -> int {
    match content_before {
        ContentBefore::Space => 0,
        ContentBefore::NotSpace(n) => n as int,
    }
}

/// The closing part of a heading begins at `i`, after a space: exactly
/// `a.count` bytes `a.character`, then the end of the line.
pub open spec fn is_atx_closing_at(s: Seq<u8>, i: int, a: AtxClosing, prev_space: bool) -> bool {
    &&& prev_space
    &&& 0 <= i < s.len()
    &&& s[i] == a.character
    &&& run_len(s, a.character, i) == a.count
    &&& (i + a.count == s.len() || s[i + a.count] == CR || s[i + a.count] == LF)
}

/// A space precedes `i` on a line scanned from `c0` on.
pub open spec fn space_before(s: Seq<u8>, c0: int, content_before: ContentBefore, i: int) -> bool {
    if i == c0 {
        content_before is Space
    } else {
        s[i - 1] == SPACE
    }
}

/// The line ends at `i`: at the end of the input or a line break, at a
/// verbatim escaping or a comment, at table-related syntax where the line is
/// in a table, or at the closing part of a heading where one is looked for.
pub open spec fn stops_at(s: Seq<u8>, i: int, cond: EndCondition, prev_space: bool) -> bool {
    ||| i >= s.len()
    ||| s[i] == CR || s[i] == LF
    ||| is_ve_opening(s, i) || is_comment_opening(s, i)
    ||| (cond.on_table_related matches Some(tr) && spec_table_related_end_at(
        s,
        i,
        tr.is_caption_applicable,
    ) is Some)
    ||| (cond.on_atx_closing matches Some(a) && is_atx_closing_at(s, i, a, prev_space))
}

/// The line does not end anywhere from the bytes known to be content up to
/// `p`.
pub open spec fn no_stop_before(
    s: Seq<u8>,
    c0: int,
    content_before: ContentBefore,
    cond: EndCondition,
    p: int,
) -> bool {
    forall|i: int|
        c0 + content_before_len(content_before) <= i < p ==> !#[trigger] stops_at(
            s,
            i,
            cond,
            space_before(s, c0, content_before, i),
        )
}

/// The line ended at the closing part of a heading: the content ends at
/// `content_end` (before the space that precedes the closing part, if it is
/// not the first byte), and the cursor stands at `cursor_after`, past the
/// line break; `at_eof` tells whether the closing part ends the input.
pub open spec fn atx_closed(
    s: Seq<u8>,
    c0: int,
    content_before: ContentBefore,
    cond: EndCondition,
    content_end: int,
    cursor_after: int,
    at_eof: bool,
) -> bool {
    cond.on_atx_closing matches Some(a) && exists|q: int|
        #![trigger space_before(s, c0, content_before, q)]
        {
            &&& c0 + content_before_len(content_before) <= q
            &&& no_stop_before(s, c0, content_before, cond, q)
            &&& is_atx_closing_at(s, q, a, space_before(s, c0, content_before, q))
            &&& content_end == (if q > c0 {
                q - 1
            } else {
                q
            })
            &&& cursor_after == q + a.count + line_break_len(s, q + a.count)
            &&& (q + a.count == s.len()) == at_eof
        }
}

/// The normal line parsed from the cursor `c0` on line `line0` has the
/// content `range` and ended as `end`, leaving the cursor at `cursor` on line
/// `line`.
pub open spec fn normal_parsed(
    s: Seq<u8>,
    c0: int,
    line0: int,
    cond: EndCondition,
    content_before: ContentBefore,
    range: Range<usize>,
    end: End,
    cursor: int,
    line: int,
) -> bool {
    &&& range.start == c0
    &&& c0 <= range.end <= cursor <= s.len()
    &&& c0 + content_before_len(content_before) <= range.end
    &&& forall|i: int| c0 <= i < range.end ==> s[i] != CR && s[i] != LF
    &&& (c0 < s.len() ==> cursor > c0)
    &&& match end {
        End::Eof => {
            &&& cursor == s.len()
            &&& line == line0
            &&& (range.end == s.len() && no_stop_before(
                s,
                c0,
                content_before,
                cond,
                range.end as int,
            )) || atx_closed(
                s,
                c0,
                content_before,
                cond,
                range.end as int,
                s.len() as int,
                true,
            )
        },
        End::NewLine(nl) => {
            &&& line == line0 + 1
            &&& nl.line_after.value == line
            &&& (no_stop_before(s, c0, content_before, cond, range.end as int)
                && line_break_len(s, range.end as int) > 0 && cursor
                == range.end + line_break_len(s, range.end as int)) || atx_closed(
                s,
                c0,
                content_before,
                cond,
                range.end as int,
                cursor as int,
                false,
            )
        },
        End::VerbatimEscaping(v) => {
            &&& no_stop_before(s, c0, content_before, cond, range.end as int)
            &&& ve_matches(s, range.end as int, v, cursor as int)
            &&& line == line0 + ve_line_breaks(s, range.end + 2)
            &&& v.line_after.value == line
        },
        End::TableRelated(t) => {
            &&& no_stop_before(s, c0, content_before, cond, range.end as int)
            &&& cond.on_table_related matches Some(tr)
            &&& spec_table_related_end_at(s, range.end as int, tr.is_caption_applicable) == Some(t)
            &&& cursor == range.end + 2
            &&& line == line0
        },
        End::Nothing => {
            &&& no_stop_before(s, c0, content_before, cond, range.end as int)
            &&& is_comment_opening(s, range.end as int)
            &&& (cursor as int, line as int)
                == comment_scan(s, range.end + 2, 1, line0 as int)
        },
    }
}

/// The line read as ending at the closing part of a heading that begins at
/// `p`.
spec fn atx_reading(
    s: Seq<u8>,
    c0: int,
    line0: int,
    cond: EndCondition,
    content_before: ContentBefore,
    p: int,
    range: Range<usize>,
    end: End,
    cursor: int,
    line: int,
) -> bool {
    &&& cond.on_atx_closing matches Some(a) && {
        &&& is_atx_closing_at(s, p, a, space_before(s, c0, content_before, p))
        &&& cursor == p + a.count + line_break_len(s, p + a.count)
        &&& if p + a.count == s.len() {
            end is Eof && line == line0
        } else {
            end matches End::NewLine(nl) && line == line0 + 1 && nl.line_after.value == line
        }
    }
    &&& range.end == (if p > c0 {
        p - 1
    } else {
        p
    })
}

/// The line read as ending at `p` in any other way.
spec fn plain_reading(
    s: Seq<u8>,
    line0: int,
    cond: EndCondition,
    p: int,
    end: End,
    cursor: int,
    line: int,
) -> bool {
    match end {
        End::Eof => p == s.len() && cursor == s.len() && line == line0,
        End::NewLine(nl) => {
            &&& line_break_len(s, p) > 0
            &&& cursor == p + line_break_len(s, p)
            &&& line == line0 + 1
            &&& nl.line_after.value == line
        },
        End::VerbatimEscaping(v) => {
            &&& ve_matches(s, p, v, cursor)
            &&& line == line0 + ve_line_breaks(s, p + 2)
            &&& v.line_after.value == line
        },
        End::TableRelated(t) => {
            &&& cond.on_table_related matches Some(tr)
            &&& spec_table_related_end_at(s, p, tr.is_caption_applicable) == Some(t)
            &&& cursor == p + 2
            &&& line == line0
        },
        End::Nothing => {
            &&& is_comment_opening(s, p)
            &&& (cursor, line) == comment_scan(s, p + 2, 1, line0)
        },
    }
}

/// The place where a parsed normal line stopped, and how it is read there.
proof fn lemma_normal_stop(
    s: Seq<u8>,
    c0: int,
    line0: int,
    cond: EndCondition,
    content_before: ContentBefore,
    range: Range<usize>,
    end: End,
    cursor: int,
    line: int,
) -> (p: int)
    requires
        normal_parsed(s, c0, line0, cond, content_before, range, end, cursor, line),
        forall|i: int|
            c0 <= i < c0 + content_before_len(content_before) ==> s[i] != SPACE,
        cond.on_atx_closing matches Some(a) ==> a.character != CR && a.character != LF
            && a.character != LT && a.character != PIPE && a.character != EXCLAMATION,
    ensures
        c0 + content_before_len(content_before) <= p <= s.len(),
        no_stop_before(s, c0, content_before, cond, p),
        stops_at(s, p, cond, space_before(s, c0, content_before, p)),
        atx_reading(s, c0, line0, cond, content_before, p, range, end, cursor, line) || (p
            == range.end && plain_reading(s, line0, cond, p, end, cursor, line) && !(
        cond.on_atx_closing matches Some(a) && is_atx_closing_at(
            s,
            p,
            a,
            space_before(s, c0, content_before, p),
        ))),
{
    let at_eof = end is Eof;
    if (end is Eof || end is NewLine) && atx_closed(
        s,
        c0,
        content_before,
        cond,
        range.end as int,
        cursor,
        at_eof,
    ) {
        let a = cond.on_atx_closing->0;
        let q = choose|q: int|
            #![trigger space_before(s, c0, content_before, q)]
            {
                &&& c0 + content_before_len(content_before) <= q
                &&& no_stop_before(s, c0, content_before, cond, q)
                &&& is_atx_closing_at(s, q, a, space_before(s, c0, content_before, q))
                &&& range.end == (if q > c0 {
                    q - 1
                } else {
                    q
                })
                &&& cursor == q + a.count + line_break_len(s, q + a.count)
                &&& (q + a.count == s.len()) == at_eof
            };
        if end is Eof {
            assert(cursor == s.len());
        }
        q
    } else {
        range.end as int
    }
}

/// A normal line has one reading: where the bytes known to be content are no
/// spaces and the closing part of a heading, when one is looked for, is made
/// of a byte that is no line break, `<`, `|` or `!`, two parses of the line
/// from the same place agree on the content, on how the line ended, on the
/// cursor and on the line number.
pub proof fn lemma_normal_parsed_unique(
    s: Seq<u8>,
    c0: int,
    line0: int,
    cond: EndCondition,
    content_before: ContentBefore,
    range1: Range<usize>,
    end1: End,
    cursor1: int,
    line1: int,
    range2: Range<usize>,
    end2: End,
    cursor2: int,
    line2: int,
)
    requires
        forall|i: int|
            c0 <= i < c0 + content_before_len(content_before) ==> s[i] != SPACE,
        cond.on_atx_closing matches Some(a) ==> a.character != CR && a.character != LF
            && a.character != LT && a.character != PIPE && a.character != EXCLAMATION,
        normal_parsed(s, c0, line0, cond, content_before, range1, end1, cursor1, line1),
        normal_parsed(s, c0, line0, cond, content_before, range2, end2, cursor2, line2),
    ensures
        range1 == range2,
        end1 == end2,
        cursor1 == cursor2,
        line1 == line2,
{
    let p1 = lemma_normal_stop(s, c0, line0, cond, content_before, range1, end1, cursor1, line1);
    let p2 = lemma_normal_stop(s, c0, line0, cond, content_before, range2, end2, cursor2, line2);
    if p1 < p2 {
        assert(!stops_at(s, p1, cond, space_before(s, c0, content_before, p1)));
    }
    if p2 < p1 {
        assert(!stops_at(s, p2, cond, space_before(s, c0, content_before, p2)));
    }
    assert(p1 == p2);
    let p = p1;
    if atx_reading(s, c0, line0, cond, content_before, p, range1, end1, cursor1, line1) {
        assert(atx_reading(s, c0, line0, cond, content_before, p, range2, end2, cursor2, line2));
        assert(range1 == range2);
        if !(end1 is Eof) {
            assert(end1->NewLine_0 == end2->NewLine_0);
        }
    } else {
        assert(!atx_reading(s, c0, line0, cond, content_before, p, range2, end2, cursor2, line2));
        assert(range1 == range2);
        match end1 {
            End::Eof => {},
            End::NewLine(nl1) => {
                assert(end2 is NewLine);
                assert(nl1 == end2->NewLine_0);
            },
            End::VerbatimEscaping(v1) => {
                assert(end2 is VerbatimEscaping);
                assert(v1 == end2->VerbatimEscaping_0);
            },
            End::TableRelated(t1) => {
                assert(end2 is TableRelated);
            },
            End::Nothing => {},
        }
    }
}

/// Parses the content of a normal line (as in a paragraph or a heading) up to
/// where it ends.
pub fn parse<TCtx: CursorContext>(
    input: &[u8],
    ctx: &mut TCtx,
    end_condition: EndCondition,
    content_before: ContentBefore,
) -> (r: (Range<usize>, End))
    requires
        ctx_fits(old(ctx), input@.len() as int),
        old(ctx).spec_cursor() + content_before_len(content_before) <= input@.len(),
        forall|i: int|
            old(ctx).spec_cursor() <= i < old(ctx).spec_cursor() + content_before_len(content_before)
                ==> input@[i] != CR && input@[i] != LF && input@[i] != SPACE,
        end_condition.on_atx_closing matches Some(a) ==> a.character != SPACE && a.character != CR
            && a.character != LF && a.character != LT && a.character != PIPE && a.character
            != EXCLAMATION,
    ensures
        ctx_fits(final(ctx), input@.len() as int),
        old(ctx).spec_line() <= final(ctx).spec_line(),
        normal_parsed(
            input@,
            old(ctx).spec_cursor() as int,
            old(ctx).spec_line() as int,
            end_condition,
            content_before,
            r.0,
            r.1,
            final(ctx).spec_cursor() as int,
            final(ctx).spec_line() as int,
        ),
{
    let ghost s = input@;
    let ghost c0 = old(ctx).spec_cursor() as int;
    let ghost line0 = old(ctx).spec_line() as int;
    let len = input.len();
    let start = ctx.cursor();
    let mut end = ctx.cursor();
    let mut prev_is_space = match content_before {
        ContentBefore::Space => true,
        ContentBefore::NotSpace(n) => {
            ctx.move_cursor_forward(n);
            end = ctx.cursor();
            false
        },
    };
    loop
        invariant
            s == input@,
            len == s.len(),
            c0 == old(ctx).spec_cursor(),
            line0 == old(ctx).spec_line(),
            start == c0,
            ctx_fits(ctx, s.len() as int),
            c0 <= end == ctx.spec_cursor() <= s.len(),
            c0 + content_before_len(content_before) <= end,
            ctx.spec_line() == line0,
            forall|i: int| c0 <= i < end ==> s[i] != CR && s[i] != LF,
            forall|i: int|
                c0 <= i < c0 + content_before_len(content_before) ==> s[i] != SPACE,
            prev_is_space && end > c0 ==> s[end - 1] == SPACE,
            prev_is_space == space_before(s, c0, content_before, end as int),
            no_stop_before(s, c0, content_before, end_condition, end as int),
            end_condition.on_atx_closing matches Some(a) ==> a.character != SPACE && a.character
                != CR && a.character != LF && a.character != LT && a.character != PIPE
                && a.character != EXCLAMATION,
        decreases s.len() - ctx.spec_cursor(),
    {
        let cur = ctx.cursor();
        let char = if cur < len {
            Some(input[cur])
        } else {
            None
        };
        let c = match parse_common_end(input, ctx, char) {
            ParseCommonEndOutput::Ended(CommonEnd::Eof) => {
                return (Range { start, end }, End::Eof);
            },
            ParseCommonEndOutput::Ended(CommonEnd::NewLine(new_line)) => {
                return (Range { start, end }, End::NewLine(new_line));
            },
            ParseCommonEndOutput::NoneButMetSpace => {
                ctx.move_cursor_forward(1);
                end = ctx.cursor();
                prev_is_space = true;
                continue ;
            },
            ParseCommonEndOutput::Other(c) => c,
        };
        match global_phase::parse(input, ctx, c) {
            Some(global_phase::Output::VerbatimEscaping(v)) => {
                return (Range { start, end }, End::VerbatimEscaping(v));
            },
            Some(global_phase::Output::Nothing) => {
                return (Range { start, end }, End::Nothing);
            },
            None => {},
        }
        if let Some(tr) = end_condition.on_table_related {
            if let Some(t) = table::parse_end(input, ctx, c, tr.is_caption_applicable) {
                return (Range { start, end }, End::TableRelated(t));
            }
        }
        if let Some(a) = end_condition.on_atx_closing {
            if prev_is_space && c == a.character {
                let count = count_continuous_character(input, c, cur);
                proof {
                    lemma_run_len_bounded(s, c, cur as int);
                }
                let after = cur + count;
                if count == a.count && (after == len || input[after] == CR || input[after] == LF) {
                    let content_end = if end > start && input[end - 1] == SPACE {
                        end - 1
                    } else {
                        end
                    };
                    ctx.move_cursor_forward(count);
                    let char_after = if after < len {
                        Some(input[after])
                    } else {
                        None
                    };
                    match parse_common_end(input, ctx, char_after) {
                        ParseCommonEndOutput::Ended(CommonEnd::Eof) => {
                            return (Range { start, end: content_end }, End::Eof);
                        },
                        ParseCommonEndOutput::Ended(CommonEnd::NewLine(new_line)) => {
                            return (Range { start, end: content_end }, End::NewLine(new_line));
                        },
                        _ => {
                            proof {
                                assert(false);
                            }
                            return (Range { start, end: content_end }, End::Eof);
                        },
                    }
                }
                ctx.move_cursor_forward(count);
                end = ctx.cursor();
                prev_is_space = false;
                continue ;
            }
        }
        ctx.move_cursor_forward(1);
        end = ctx.cursor();
        prev_is_space = false;
    }
}

} // verus!
