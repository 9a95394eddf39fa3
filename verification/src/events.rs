use vstd::prelude::*;
use vstd::string::*;
use vstd::utf8::*;

use core::ops::Range;

use crate::types::{BlockId, LineNumber};
use crate::utils::render::{decimal, write_usize};

verus! {

/// The kind of an event, shared by all the event groups.
#[derive(Debug, Clone, Copy, PartialEq, Eq, Structural)]
pub enum EventType {
    Unparsed,
    NewLine,
    VerbatimEscaping,
    Text,
    ThematicBreak,
    EnterParagraph,
    EnterHeading1,
    EnterHeading2,
    EnterHeading3,
    EnterHeading4,
    EnterHeading5,
    EnterHeading6,
    EnterBlockQuote,
    EnterOrderedList,
    EnterUnorderedList,
    EnterListItem,
    EnterDescriptionList,
    EnterDescriptionTerm,
    EnterDescriptionDetails,
    EnterCodeBlock,
    EnterTable,
    IndicateCodeBlockCode,
    IndicateTableCaption,
    IndicateTableRow,
    IndicateTableHeaderCell,
    IndicateTableDataCell,
    ExitBlock,
}

/// The numeric code of each kind of event.
pub open spec fn spec_event_type_code(t: EventType) -> u8 {
    match t {
        EventType::Unparsed => 255,
        EventType::NewLine => 201,
        EventType::VerbatimEscaping => 202,
        EventType::Text => 203,
        EventType::ThematicBreak => 8,
        EventType::EnterParagraph => 7,
        EventType::EnterHeading1 => 1,
        EventType::EnterHeading2 => 2,
        EventType::EnterHeading3 => 3,
        EventType::EnterHeading4 => 4,
        EventType::EnterHeading5 => 5,
        EventType::EnterHeading6 => 6,
        EventType::EnterBlockQuote => 11,
        EventType::EnterOrderedList => 12,
        EventType::EnterUnorderedList => 13,
        EventType::EnterListItem => 14,
        EventType::EnterDescriptionList => 15,
        EventType::EnterDescriptionTerm => 16,
        EventType::EnterDescriptionDetails => 17,
        EventType::EnterCodeBlock => 21,
        EventType::EnterTable => 31,
        EventType::IndicateCodeBlockCode => 22,
        EventType::IndicateTableCaption => 35,
        EventType::IndicateTableRow => 32,
        EventType::IndicateTableHeaderCell => 33,
        EventType::IndicateTableDataCell => 34,
        EventType::ExitBlock => 99,
    }
}

/// Distinct kinds of events have distinct codes: the kind that a code is read
/// back as is the kind it was made from.
pub proof fn lemma_event_type_code_injective(t: EventType, u: EventType)
    requires
        spec_event_type_code(t) == spec_event_type_code(u),
    ensures
        t == u,
{
}

impl EventType {
    /// The numeric code of this kind of event.
    pub fn value(&self) -> (r: u8)
        ensures
            r == spec_event_type_code(*self),
    {
        match self {
            EventType::Unparsed => 255,
            EventType::NewLine => 201,
            EventType::VerbatimEscaping => 202,
            EventType::Text => 203,
            EventType::ThematicBreak => 8,
            EventType::EnterParagraph => 7,
            EventType::EnterHeading1 => 1,
            EventType::EnterHeading2 => 2,
            EventType::EnterHeading3 => 3,
            EventType::EnterHeading4 => 4,
            EventType::EnterHeading5 => 5,
            EventType::EnterHeading6 => 6,
            EventType::EnterBlockQuote => 11,
            EventType::EnterOrderedList => 12,
            EventType::EnterUnorderedList => 13,
            EventType::EnterListItem => 14,
            EventType::EnterDescriptionList => 15,
            EventType::EnterDescriptionTerm => 16,
            EventType::EnterDescriptionDetails => 17,
            EventType::EnterCodeBlock => 21,
            EventType::EnterTable => 31,
            EventType::IndicateCodeBlockCode => 22,
            EventType::IndicateTableCaption => 35,
            EventType::IndicateTableRow => 32,
            EventType::IndicateTableHeaderCell => 33,
            EventType::IndicateTableDataCell => 34,
            EventType::ExitBlock => 99,
        }
    }

    /// The kind of event that has the given numeric code, if any.
    pub fn from_value(value: u8) -> (r: Option<EventType>)
        ensures
            match r {
                Some(t) => spec_event_type_code(t) == value,
                None => forall|t: EventType| spec_event_type_code(t) != value,
            },
    {
        match value {
            255 => Some(EventType::Unparsed),
            201 => Some(EventType::NewLine),
            202 => Some(EventType::VerbatimEscaping),
            203 => Some(EventType::Text),
            8 => Some(EventType::ThematicBreak),
            7 => Some(EventType::EnterParagraph),
            1 => Some(EventType::EnterHeading1),
            2 => Some(EventType::EnterHeading2),
            3 => Some(EventType::EnterHeading3),
            4 => Some(EventType::EnterHeading4),
            5 => Some(EventType::EnterHeading5),
            6 => Some(EventType::EnterHeading6),
            11 => Some(EventType::EnterBlockQuote),
            12 => Some(EventType::EnterOrderedList),
            13 => Some(EventType::EnterUnorderedList),
            14 => Some(EventType::EnterListItem),
            15 => Some(EventType::EnterDescriptionList),
            16 => Some(EventType::EnterDescriptionTerm),
            17 => Some(EventType::EnterDescriptionDetails),
            21 => Some(EventType::EnterCodeBlock),
            31 => Some(EventType::EnterTable),
            22 => Some(EventType::IndicateCodeBlockCode),
            35 => Some(EventType::IndicateTableCaption),
            32 => Some(EventType::IndicateTableRow),
            33 => Some(EventType::IndicateTableHeaderCell),
            34 => Some(EventType::IndicateTableDataCell),
            99 => Some(EventType::ExitBlock),
            _ => None,
        }
    }
}

/// Verbatim escaping (`<` … `>`).
#[derive(Debug, PartialEq, Eq)]
pub struct VerbatimEscaping {
    pub content: Range<usize>,
    pub is_closed_forcedly: bool,
    pub line_after: LineNumber,
}

/// A copy of a range of input positions.
pub fn copy_range(r: &Range<usize>) -> (c: Range<usize>)
    ensures
        c == *r,
{
    Range { start: r.start, end: r.end }
}

impl Clone for VerbatimEscaping {
    fn clone(&self) -> (c: Self)
        ensures
            c == *self,
    {
        VerbatimEscaping {
            content: copy_range(&self.content),
            is_closed_forcedly: self.is_closed_forcedly,
            line_after: self.line_after,
        }
    }
}

/// A line break (CR, LF or CRLF).
#[derive(Debug, Clone, Copy, PartialEq, Eq)]
pub struct NewLine {
    pub line_after: LineNumber,
}

/// The data of an event that enters a block.
#[derive(Debug, Clone, Copy, PartialEq, Eq)]
pub struct BlockWithId {
    pub id: BlockId,
}

impl BlockWithId {
    /// Wraps a block id.
    pub fn from_id(id: BlockId) -> (r: BlockWithId)
        ensures
            r.id == id,
    {
        BlockWithId { id }
    }
}

/// A thematic break.
#[derive(Debug, Clone, Copy, PartialEq, Eq)]
pub struct ThematicBreak {
    pub id: BlockId,
    pub line: LineNumber,
}

/// The exit of a block entered earlier.
#[derive(Debug, Clone, Copy, PartialEq, Eq)]
pub struct ExitBlock {
    pub id: BlockId,
    pub start_line: LineNumber,
    pub end_line: LineNumber,
}

/// All events that the parsing phases produce.
#[derive(Debug, PartialEq, Eq)]
pub enum Event {
    /// Left for the next phase.
    Unparsed(Range<usize>),
    /// Verbatim escaping.
    VerbatimEscaping(VerbatimEscaping),
    /// A line break.
    NewLine(NewLine),
    /// Text.
    Text(Range<usize>),
    ThematicBreak(ThematicBreak),
    EnterParagraph(BlockWithId),
    EnterHeading1(BlockWithId),
    EnterHeading2(BlockWithId),
    EnterHeading3(BlockWithId),
    EnterHeading4(BlockWithId),
    EnterHeading5(BlockWithId),
    EnterHeading6(BlockWithId),
    EnterBlockQuote(BlockWithId),
    EnterOrderedList(BlockWithId),
    EnterUnorderedList(BlockWithId),
    EnterListItem(BlockWithId),
    EnterDescriptionList(BlockWithId),
    EnterDescriptionTerm(BlockWithId),
    EnterDescriptionDetails(BlockWithId),
    EnterCodeBlock(BlockWithId),
    EnterTable(BlockWithId),
    IndicateCodeBlockCode,
    IndicateTableCaption,
    IndicateTableRow,
    IndicateTableHeaderCell,
    IndicateTableDataCell,
    ExitBlock(ExitBlock),
}

/// The events of the global phase.
#[derive(Debug, PartialEq, Eq)]
pub enum GlobalEvent {
    Unparsed(Range<usize>),
    VerbatimEscaping(VerbatimEscaping),
    NewLine(NewLine),
}

/// The events of the block phase.
#[derive(Debug, PartialEq, Eq)]
pub enum BlockEvent {
    Unparsed(Range<usize>),
    VerbatimEscaping(VerbatimEscaping),
    NewLine(NewLine),
    Text(Range<usize>),
    ThematicBreak(ThematicBreak),
    EnterParagraph(BlockWithId),
    EnterHeading1(BlockWithId),
    EnterHeading2(BlockWithId),
    EnterHeading3(BlockWithId),
    EnterHeading4(BlockWithId),
    EnterHeading5(BlockWithId),
    EnterHeading6(BlockWithId),
    EnterBlockQuote(BlockWithId),
    EnterOrderedList(BlockWithId),
    EnterUnorderedList(BlockWithId),
    EnterListItem(BlockWithId),
    EnterDescriptionList(BlockWithId),
    EnterDescriptionTerm(BlockWithId),
    EnterDescriptionDetails(BlockWithId),
    EnterCodeBlock(BlockWithId),
    EnterTable(BlockWithId),
    IndicateCodeBlockCode,
    IndicateTableCaption,
    IndicateTableRow,
    IndicateTableHeaderCell,
    IndicateTableDataCell,
    ExitBlock(ExitBlock),
}

/// The kind of an event.
pub open spec fn spec_event_type(ev: Event) -> EventType {
    match ev {
        Event::Unparsed(_) => EventType::Unparsed,
        Event::VerbatimEscaping(_) => EventType::VerbatimEscaping,
        Event::NewLine(_) => EventType::NewLine,
        Event::Text(_) => EventType::Text,
        Event::ThematicBreak(_) => EventType::ThematicBreak,
        Event::EnterParagraph(_) => EventType::EnterParagraph,
        Event::EnterHeading1(_) => EventType::EnterHeading1,
        Event::EnterHeading2(_) => EventType::EnterHeading2,
        Event::EnterHeading3(_) => EventType::EnterHeading3,
        Event::EnterHeading4(_) => EventType::EnterHeading4,
        Event::EnterHeading5(_) => EventType::EnterHeading5,
        Event::EnterHeading6(_) => EventType::EnterHeading6,
        Event::EnterBlockQuote(_) => EventType::EnterBlockQuote,
        Event::EnterOrderedList(_) => EventType::EnterOrderedList,
        Event::EnterUnorderedList(_) => EventType::EnterUnorderedList,
        Event::EnterListItem(_) => EventType::EnterListItem,
        Event::EnterDescriptionList(_) => EventType::EnterDescriptionList,
        Event::EnterDescriptionTerm(_) => EventType::EnterDescriptionTerm,
        Event::EnterDescriptionDetails(_) => EventType::EnterDescriptionDetails,
        Event::EnterCodeBlock(_) => EventType::EnterCodeBlock,
        Event::EnterTable(_) => EventType::EnterTable,
        Event::IndicateCodeBlockCode => EventType::IndicateCodeBlockCode,
        Event::IndicateTableCaption => EventType::IndicateTableCaption,
        Event::IndicateTableRow => EventType::IndicateTableRow,
        Event::IndicateTableHeaderCell => EventType::IndicateTableHeaderCell,
        Event::IndicateTableDataCell => EventType::IndicateTableDataCell,
        Event::ExitBlock(_) => EventType::ExitBlock,
    }
}

/// The range of the input that an event carries, if it carries one.
pub open spec fn spec_content_range(ev: Event) -> Option<Range<usize>> {
    match ev {
        Event::Unparsed(r) => Some(r),
        Event::VerbatimEscaping(v) => Some(v.content),
        Event::Text(r) => Some(r),
        _ => None,
    }
}

/// A range lies within an input of the given length.
pub open spec fn range_within(r: Range<usize>, len: nat) -> bool {
    r.start <= r.end && r.end <= len
}

/// Turns bytes that are known to be valid UTF-8 into a string slice.
///
/// Wraps `std::str::from_utf8`: on valid UTF-8 its documentation promises
/// `Ok` with a string slice over the same bytes.
#[verifier::external_body]
fn str_from_valid_utf8(bytes: &[u8]) -> (r: &str)
    requires
        valid_utf8(bytes@),
    ensures
        r.spec_bytes() == bytes@,
{
    std::str::from_utf8(bytes).unwrap()
}

impl Event {
    /// The numeric code of the kind of this event.
    pub fn discriminant(&self) -> (r: u8)
        ensures
            r == spec_event_type_code(spec_event_type(*self)),
    {
        self.event_type().value()
    }

    /// The kind of this event.
    pub fn event_type(&self) -> (r: EventType)
        ensures
            r == spec_event_type(*self),
    {
        match self {
            Event::Unparsed(_) => EventType::Unparsed,
            Event::VerbatimEscaping(_) => EventType::VerbatimEscaping,
            Event::NewLine(_) => EventType::NewLine,
            Event::Text(_) => EventType::Text,
            Event::ThematicBreak(_) => EventType::ThematicBreak,
            Event::EnterParagraph(_) => EventType::EnterParagraph,
            Event::EnterHeading1(_) => EventType::EnterHeading1,
            Event::EnterHeading2(_) => EventType::EnterHeading2,
            Event::EnterHeading3(_) => EventType::EnterHeading3,
            Event::EnterHeading4(_) => EventType::EnterHeading4,
            Event::EnterHeading5(_) => EventType::EnterHeading5,
            Event::EnterHeading6(_) => EventType::EnterHeading6,
            Event::EnterBlockQuote(_) => EventType::EnterBlockQuote,
            Event::EnterOrderedList(_) => EventType::EnterOrderedList,
            Event::EnterUnorderedList(_) => EventType::EnterUnorderedList,
            Event::EnterListItem(_) => EventType::EnterListItem,
            Event::EnterDescriptionList(_) => EventType::EnterDescriptionList,
            Event::EnterDescriptionTerm(_) => EventType::EnterDescriptionTerm,
            Event::EnterDescriptionDetails(_) => EventType::EnterDescriptionDetails,
            Event::EnterCodeBlock(_) => EventType::EnterCodeBlock,
            Event::EnterTable(_) => EventType::EnterTable,
            Event::IndicateCodeBlockCode => EventType::IndicateCodeBlockCode,
            Event::IndicateTableCaption => EventType::IndicateTableCaption,
            Event::IndicateTableRow => EventType::IndicateTableRow,
            Event::IndicateTableHeaderCell => EventType::IndicateTableHeaderCell,
            Event::IndicateTableDataCell => EventType::IndicateTableDataCell,
            Event::ExitBlock(_) => EventType::ExitBlock,
        }
    }

    /// The range of the input that this event carries, if any.
    pub fn content_range(&self) -> (r: Option<Range<usize>>)
        ensures
            r == spec_content_range(*self),
    {
        match self {
            Event::Unparsed(r) => Some(copy_range(r)),
            Event::VerbatimEscaping(v) => Some(copy_range(&v.content)),
            Event::Text(r) => Some(copy_range(r)),
            _ => None,
        }
    }

    /// The text of the input that this event carries, if any.
    pub fn content<'a>(&self, input: &'a [u8]) -> (r: Option<&'a str>)
        requires
            spec_content_range(*self) matches Some(range) ==> {
                &&& range_within(range, input@.len())
                &&& valid_utf8(input@.subrange(range.start as int, range.end as int))
            },
        ensures
            match spec_content_range(*self) {
                Some(range) => r matches Some(s) && s.spec_bytes() == input@.subrange(
                    range.start as int,
                    range.end as int,
                ),
                None => r is None,
            },
    {
        match self.content_range() {
            Some(range) => {
                let bytes = vstd::slice::slice_subrange(input, range.start, range.end);
                Some(str_from_valid_utf8(bytes))
            },
            None => None,
        }
    }

    /// The flags that tests check besides the kind and the text of an event:
    /// `F` for a verbatim escaping closed by the end of the input, and
    /// `>ln:` with the number of the line after a line break or a verbatim
    /// escaping; `None` where there are none.
    pub fn assertion_flags(&self) -> (r: Option<Vec<Vec<u8>>>)
        ensures
            match r {
                Some(flags) => flags@.map_values(|f: Vec<u8>| f@) == spec_assertion_flags(*self)
                    && spec_assertion_flags(*self).len() > 0,
                None => spec_assertion_flags(*self).len() == 0,
            },
    {
        self.assertion_flags_with(true)
    }

    /// The flags that tests check, where line numbers are checked only if
    /// `line_numbers` holds: without them, only `F` for a verbatim escaping
    /// closed by the end of the input is left.
    pub fn assertion_flags_with(&self, line_numbers: bool) -> (r: Option<Vec<Vec<u8>>>)
        ensures
            match r {
                Some(flags) => flags@.map_values(|f: Vec<u8>| f@) == spec_assertion_flags_with(
                    *self,
                    line_numbers,
                ) && spec_assertion_flags_with(*self, line_numbers).len() > 0,
                None => spec_assertion_flags_with(*self, line_numbers).len() == 0,
            },
    {
        let mut flags: Vec<Vec<u8>> = Vec::new();
        let ghost mut expected: Seq<Seq<u8>> = seq![];
        let line_after = if !line_numbers {
            if let Event::VerbatimEscaping(v) = self {
                if v.is_closed_forcedly {
                    let mut flag: Vec<u8> = Vec::new();
                    flag.extend_from_slice("F".as_bytes());
                    proof {
                        assert(flag@ =~= "F".spec_bytes());
                        expected = expected.push(flag@);
                    }
                    flags.push(flag);
                }
            }
            None
        } else {
            match self {
            Event::VerbatimEscaping(v) => {
                if v.is_closed_forcedly {
                    let mut flag: Vec<u8> = Vec::new();
                    flag.extend_from_slice("F".as_bytes());
                    proof {
                        assert(flag@ =~= "F".spec_bytes());
                        expected = expected.push(flag@);
                    }
                    flags.push(flag);
                }
                Some(v.line_after)
            },
            Event::NewLine(n) => Some(n.line_after),
            _ => None,
            }
        };
        proof {
            assert(flags@.map_values(|f: Vec<u8>| f@) =~= expected);
        }
        match line_after {
            Some(line) => {
                let mut flag: Vec<u8> = Vec::new();
                flag.extend_from_slice(">ln:".as_bytes());
                write_usize(&mut flag, line.value);
                proof {
                    assert(flag@ =~= ">ln:".spec_bytes() + decimal(line.value as nat));
                    expected = expected.push(flag@);
                }
                flags.push(flag);
                proof {
                    assert(flags@.map_values(|f: Vec<u8>| f@) =~= expected);
                }
            },
            None => {},
        }
        proof {
            assert(expected =~= spec_assertion_flags_with(*self, line_numbers));
        }
        if flags.len() > 0 {
            Some(flags)
        } else {
            None
        }
    }
}

/// The flags that tests check besides the kind and the text of an event.
pub open spec fn spec_assertion_flags(ev: Event) -> Seq<Seq<u8>> {
    spec_assertion_flags_with(ev, true)
}

/// The flags that tests check, with the line numbers only if `line_numbers`
/// holds.
pub open spec fn spec_assertion_flags_with(ev: Event, line_numbers: bool) -> Seq<Seq<u8>> {
    let forced: Seq<Seq<u8>> = match ev {
        Event::VerbatimEscaping(v) => if v.is_closed_forcedly {
            seq!["F".spec_bytes()]
        } else {
            seq![]
        },
        _ => seq![],
    };
    let line: Seq<Seq<u8>> = if !line_numbers {
        seq![]
    } else {
        match ev {
            Event::VerbatimEscaping(v) => seq![">ln:".spec_bytes() + decimal(v.line_after.value as nat)],
            Event::NewLine(n) => seq![">ln:".spec_bytes() + decimal(n.line_after.value as nat)],
            _ => seq![],
        }
    };
    forced + line
}

/// Whether a block event opens a run of events for the inline phase.
pub open spec fn spec_opens_inline_phase(ev: BlockEvent) -> bool {
    match ev {
        BlockEvent::EnterParagraph(_) | BlockEvent::EnterHeading1(_) | BlockEvent::EnterHeading2(_)
        | BlockEvent::EnterHeading3(_) | BlockEvent::EnterHeading4(_) | BlockEvent::EnterHeading5(_)
        | BlockEvent::EnterHeading6(_) | BlockEvent::IndicateCodeBlockCode => true,
        _ => false,
    }
}

/// Whether a block event closes a run of events for the inline phase.
pub open spec fn spec_closes_inline_phase(ev: BlockEvent) -> bool {
    match ev {
        BlockEvent::ExitBlock(_) | BlockEvent::IndicateCodeBlockCode => true,
        _ => false,
    }
}

/// A run of events for the inline phase opens exactly at the entering of a
/// paragraph or a heading or at the indicator of the code of a code block,
/// and ends exactly at an exit or at that indicator; the indicator is the one event
/// that both ends a run (that of the info string) and opens the next (that
/// of the code), so an info string and its code never share a run.
pub proof fn lemma_inline_runs_end(ev: BlockEvent)
    ensures
        spec_opens_inline_phase(ev) == (ev is EnterParagraph || ev is EnterHeading1 || ev is EnterHeading2
            || ev is EnterHeading3 || ev is EnterHeading4 || ev is EnterHeading5 || ev is EnterHeading6
            || ev is IndicateCodeBlockCode),
        spec_closes_inline_phase(ev) == (ev is ExitBlock || ev is IndicateCodeBlockCode),
        (spec_opens_inline_phase(ev) && spec_closes_inline_phase(ev)) == (ev is IndicateCodeBlockCode),
{
}

/// The event that a block event is.
pub open spec fn spec_block_to_event(ev: BlockEvent) -> Event {
    match ev {
        BlockEvent::Unparsed(r) => Event::Unparsed(r),
        BlockEvent::VerbatimEscaping(v) => Event::VerbatimEscaping(v),
        BlockEvent::NewLine(n) => Event::NewLine(n),
        BlockEvent::Text(r) => Event::Text(r),
        BlockEvent::ThematicBreak(t) => Event::ThematicBreak(t),
        BlockEvent::EnterParagraph(b) => Event::EnterParagraph(b),
        BlockEvent::EnterHeading1(b) => Event::EnterHeading1(b),
        BlockEvent::EnterHeading2(b) => Event::EnterHeading2(b),
        BlockEvent::EnterHeading3(b) => Event::EnterHeading3(b),
        BlockEvent::EnterHeading4(b) => Event::EnterHeading4(b),
        BlockEvent::EnterHeading5(b) => Event::EnterHeading5(b),
        BlockEvent::EnterHeading6(b) => Event::EnterHeading6(b),
        BlockEvent::EnterBlockQuote(b) => Event::EnterBlockQuote(b),
        BlockEvent::EnterOrderedList(b) => Event::EnterOrderedList(b),
        BlockEvent::EnterUnorderedList(b) => Event::EnterUnorderedList(b),
        BlockEvent::EnterListItem(b) => Event::EnterListItem(b),
        BlockEvent::EnterDescriptionList(b) => Event::EnterDescriptionList(b),
        BlockEvent::EnterDescriptionTerm(b) => Event::EnterDescriptionTerm(b),
        BlockEvent::EnterDescriptionDetails(b) => Event::EnterDescriptionDetails(b),
        BlockEvent::EnterCodeBlock(b) => Event::EnterCodeBlock(b),
        BlockEvent::EnterTable(b) => Event::EnterTable(b),
        BlockEvent::IndicateCodeBlockCode => Event::IndicateCodeBlockCode,
        BlockEvent::IndicateTableCaption => Event::IndicateTableCaption,
        BlockEvent::IndicateTableRow => Event::IndicateTableRow,
        BlockEvent::IndicateTableHeaderCell => Event::IndicateTableHeaderCell,
        BlockEvent::IndicateTableDataCell => Event::IndicateTableDataCell,
        BlockEvent::ExitBlock(e) => Event::ExitBlock(e),
    }
}

/// The event that a global event is.
pub open spec fn spec_global_to_event(ev: GlobalEvent) -> Event {
    match ev {
        GlobalEvent::Unparsed(r) => Event::Unparsed(r),
        GlobalEvent::VerbatimEscaping(v) => Event::VerbatimEscaping(v),
        GlobalEvent::NewLine(n) => Event::NewLine(n),
    }
}

impl BlockEvent {
    /// Whether this event opens a run of events for the inline phase.
    pub fn opens_inline_phase(&self) -> (r: bool)
        ensures
            r == spec_opens_inline_phase(*self),
    {
        match self {
            BlockEvent::EnterParagraph(_) | BlockEvent::EnterHeading1(_)
            | BlockEvent::EnterHeading2(_) | BlockEvent::EnterHeading3(_)
            | BlockEvent::EnterHeading4(_) | BlockEvent::EnterHeading5(_)
            | BlockEvent::EnterHeading6(_) | BlockEvent::IndicateCodeBlockCode => true,
            _ => false,
        }
    }

    /// Whether this event closes a run of events for the inline phase.
    pub fn closes_inline_phase(&self) -> (r: bool)
        ensures
            r == spec_closes_inline_phase(*self),
    {
        match self {
            BlockEvent::ExitBlock(_) | BlockEvent::IndicateCodeBlockCode => true,
            _ => false,
        }
    }

    /// The event that this block event is.
    pub fn into_event(self) -> (r: Event)
        ensures
            r == spec_block_to_event(self),
    {
        match self {
            BlockEvent::Unparsed(r) => Event::Unparsed(r),
            BlockEvent::VerbatimEscaping(v) => Event::VerbatimEscaping(v),
            BlockEvent::NewLine(n) => Event::NewLine(n),
            BlockEvent::Text(r) => Event::Text(r),
            BlockEvent::ThematicBreak(t) => Event::ThematicBreak(t),
            BlockEvent::EnterParagraph(b) => Event::EnterParagraph(b),
            BlockEvent::EnterHeading1(b) => Event::EnterHeading1(b),
            BlockEvent::EnterHeading2(b) => Event::EnterHeading2(b),
            BlockEvent::EnterHeading3(b) => Event::EnterHeading3(b),
            BlockEvent::EnterHeading4(b) => Event::EnterHeading4(b),
            BlockEvent::EnterHeading5(b) => Event::EnterHeading5(b),
            BlockEvent::EnterHeading6(b) => Event::EnterHeading6(b),
            BlockEvent::EnterBlockQuote(b) => Event::EnterBlockQuote(b),
            BlockEvent::EnterOrderedList(b) => Event::EnterOrderedList(b),
            BlockEvent::EnterUnorderedList(b) => Event::EnterUnorderedList(b),
            BlockEvent::EnterListItem(b) => Event::EnterListItem(b),
            BlockEvent::EnterDescriptionList(b) => Event::EnterDescriptionList(b),
            BlockEvent::EnterDescriptionTerm(b) => Event::EnterDescriptionTerm(b),
            BlockEvent::EnterDescriptionDetails(b) => Event::EnterDescriptionDetails(b),
            BlockEvent::EnterCodeBlock(b) => Event::EnterCodeBlock(b),
            BlockEvent::EnterTable(b) => Event::EnterTable(b),
            BlockEvent::IndicateCodeBlockCode => Event::IndicateCodeBlockCode,
            BlockEvent::IndicateTableCaption => Event::IndicateTableCaption,
            BlockEvent::IndicateTableRow => Event::IndicateTableRow,
            BlockEvent::IndicateTableHeaderCell => Event::IndicateTableHeaderCell,
            BlockEvent::IndicateTableDataCell => Event::IndicateTableDataCell,
            BlockEvent::ExitBlock(e) => Event::ExitBlock(e),
        }
    }
}

impl GlobalEvent {
    /// The event that this global event is.
    pub fn into_event(self) -> (r: Event)
        ensures
            r == spec_global_to_event(self),
    {
        match self {
            GlobalEvent::Unparsed(r) => Event::Unparsed(r),
            GlobalEvent::VerbatimEscaping(v) => Event::VerbatimEscaping(v),
            GlobalEvent::NewLine(n) => Event::NewLine(n),
        }
    }
}

} // verus!
